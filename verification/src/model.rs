//! The records of the index: nodes, files, events, jobs, statistics.
use crate::text::same_text;
use vstd::prelude::*;

verus! {

pub open spec fn opt_string(s: Option<String>) -> Option<Seq<char>> {
    match s {
        Some(t) => Some(t@),
        None => None,
    }
}

#[derive(Debug, Clone, PartialEq, Eq)]
pub struct FileRecord {
    pub node_id: String,
    pub version: u64,
    pub size: u64,
    pub content_hash: String,
}

#[verifier::ext_equal]
pub struct FileView {
    pub node_id: Seq<char>,
    pub version: u64,
    pub size: u64,
    pub content_hash: Seq<char>,
}

impl View for FileRecord {
    type V = FileView;

    open spec fn view(&self) -> FileView {
        FileView {
            node_id: self.node_id@,
            version: self.version,
            size: self.size,
            content_hash: self.content_hash@,
        }
    }
}

#[derive(Debug, Clone, Copy, PartialEq, Eq, Structural)]
pub enum NodeKind {
    File,
    Dir,
}

impl NodeKind {
    /// The name under which the kind is stored.
    pub open spec fn name(self) -> Seq<char> {
        match self {
            NodeKind::File => "file"@,
            NodeKind::Dir => "dir"@,
        }
    }

    /// The kind that a stored name stands for.
    pub open spec fn named(value: Seq<char>) -> Option<NodeKind> {
        if value == "file"@ {
            Some(NodeKind::File)
        } else if value == "dir"@ {
            Some(NodeKind::Dir)
        } else {
            None
        }
    }

    pub fn as_db(&self) -> (r: &'static str)
        ensures
            r@ == self.name(),
    {
        match self {
            NodeKind::File => "file",
            NodeKind::Dir => "dir",
        }
    }

    pub fn from_db(value: &str) -> (r: Option<NodeKind>)
        ensures
            r == NodeKind::named(value@),
    {
        if same_text(value, "file") {
            Some(NodeKind::File)
        } else if same_text(value, "dir") {
            Some(NodeKind::Dir)
        } else {
            None
        }
    }
}

/// A kind is read back as it was stored.
pub proof fn lemma_node_kind_round_trip(kind: NodeKind)
    ensures
        NodeKind::named(kind.name()) == Some(kind),
{
    reveal_strlit("file");
    reveal_strlit("dir");
    assert("file"@.len() != "dir"@.len());
}

#[derive(Debug, Clone, PartialEq, Eq)]
pub struct NodeAttrs {
    pub kind: NodeKind,
    pub size: u64,
    pub mtime_unix_nano: i64,
    pub mode: u32,
    pub version: u64,
    /// Digest of the content in hexadecimal; empty for directories.
    pub content_hash: String,
    pub mime: String,
}

#[verifier::ext_equal]
pub struct AttrsView {
    pub kind: NodeKind,
    pub size: u64,
    pub mtime_unix_nano: i64,
    pub mode: u32,
    pub version: u64,
    pub content_hash: Seq<char>,
    pub mime: Seq<char>,
}

impl View for NodeAttrs {
    type V = AttrsView;

    open spec fn view(&self) -> AttrsView {
        AttrsView {
            kind: self.kind,
            size: self.size,
            mtime_unix_nano: self.mtime_unix_nano,
            mode: self.mode,
            version: self.version,
            content_hash: self.content_hash@,
            mime: self.mime@,
        }
    }
}

#[derive(Debug, Clone, PartialEq, Eq)]
pub struct NodeRecord {
    pub node_id: String,
    pub parent_node_id: Option<String>,
    pub name: String,
    pub path: String,
    pub attrs: NodeAttrs,
}

#[verifier::ext_equal]
pub struct NodeView {
    pub node_id: Seq<char>,
    pub parent_node_id: Option<Seq<char>>,
    pub name: Seq<char>,
    pub path: Seq<char>,
    pub attrs: AttrsView,
}

impl View for NodeRecord {
    type V = NodeView;

    open spec fn view(&self) -> NodeView {
        NodeView {
            node_id: self.node_id@,
            parent_node_id: opt_string(self.parent_node_id),
            name: self.name@,
            path: self.path@,
            attrs: self.attrs@,
        }
    }
}

pub open spec fn opt_node(n: Option<NodeRecord>) -> Option<NodeView> {
    match n {
        Some(r) => Some(r@),
        None => None,
    }
}

/// The outcome of writing an open file back.
#[derive(Debug, Clone, PartialEq, Eq)]
pub struct FlushResult {
    pub version: u64,
    pub attrs: NodeAttrs,
    pub event_id: i64,
}

#[derive(Debug, Clone, PartialEq, Eq)]
pub struct FileChunkRecord {
    pub chunk_id: i64,
    pub start_line: u32,
    pub end_line: u32,
    pub content: String,
}

#[derive(Debug, Clone, PartialEq, Eq)]
pub struct ChunkContent {
    pub chunk_id: i64,
    pub content: String,
}

/// A change of a node's attributes; `None` leaves one as it is.
#[derive(Debug, Clone, Copy, PartialEq, Eq, Structural)]
pub struct AttrsPatch {
    pub mode: Option<u32>,
    pub mtime_unix_nano: Option<i64>,
}

#[derive(Debug, Clone, Copy, PartialEq, Eq, Structural)]
pub enum SearchMode {
    Fts,
    Vector,
    Hybrid,
}

#[derive(Debug, Clone, Copy, PartialEq, Eq, Structural)]
pub enum EventKind {
    NodeCreated,
    NodeModified,
    NodeDeleted,
    NodeRenamed,
    AttrsChanged,
    IndexUpdated,
}

impl EventKind {
    /// The name under which the kind is stored.
    pub open spec fn name(self) -> Seq<char> {
        match self {
            EventKind::NodeCreated => "NodeCreated"@,
            EventKind::NodeModified => "NodeModified"@,
            EventKind::NodeDeleted => "NodeDeleted"@,
            EventKind::NodeRenamed => "NodeRenamed"@,
            EventKind::AttrsChanged => "AttrsChanged"@,
            EventKind::IndexUpdated => "IndexUpdated"@,
        }
    }

    /// The kind that a stored name stands for; an unknown one counts as a modification.
    pub open spec fn named(value: Seq<char>) -> EventKind {
        if value == "NodeCreated"@ {
            EventKind::NodeCreated
        } else if value == "NodeModified"@ {
            EventKind::NodeModified
        } else if value == "NodeDeleted"@ {
            EventKind::NodeDeleted
        } else if value == "NodeRenamed"@ {
            EventKind::NodeRenamed
        } else if value == "AttrsChanged"@ {
            EventKind::AttrsChanged
        } else if value == "IndexUpdated"@ {
            EventKind::IndexUpdated
        } else {
            EventKind::NodeModified
        }
    }

    pub fn as_db(&self) -> (r: &'static str)
        ensures
            r@ == self.name(),
    {
        match self {
            EventKind::NodeCreated => "NodeCreated",
            EventKind::NodeModified => "NodeModified",
            EventKind::NodeDeleted => "NodeDeleted",
            EventKind::NodeRenamed => "NodeRenamed",
            EventKind::AttrsChanged => "AttrsChanged",
            EventKind::IndexUpdated => "IndexUpdated",
        }
    }

    pub fn from_db(value: &str) -> (r: EventKind)
        ensures
            r == EventKind::named(value@),
    {
        if same_text(value, "NodeCreated") {
            EventKind::NodeCreated
        } else if same_text(value, "NodeModified") {
            EventKind::NodeModified
        } else if same_text(value, "NodeDeleted") {
            EventKind::NodeDeleted
        } else if same_text(value, "NodeRenamed") {
            EventKind::NodeRenamed
        } else if same_text(value, "AttrsChanged") {
            EventKind::AttrsChanged
        } else if same_text(value, "IndexUpdated") {
            EventKind::IndexUpdated
        } else {
            EventKind::NodeModified
        }
    }
}

/// A kind of event is read back as it was stored.
pub proof fn lemma_event_kind_round_trip(kind: EventKind)
    ensures
        EventKind::named(kind.name()) == kind,
{
    reveal_strlit("NodeCreated");
    reveal_strlit("NodeModified");
    reveal_strlit("NodeDeleted");
    reveal_strlit("NodeRenamed");
    reveal_strlit("AttrsChanged");
    reveal_strlit("IndexUpdated");
    assert("NodeCreated"@[4] == 'C');
    assert("NodeModified"@[4] == 'M');
    assert("NodeDeleted"@[4] == 'D');
    assert("NodeRenamed"@[4] == 'R');
    assert("AttrsChanged"@[4] == 's');
    assert("IndexUpdated"@[4] == 'x');
}

#[derive(Debug, Clone, PartialEq, Eq)]
pub struct EventRecord {
    pub cursor: String,
    pub created_at_unix_nano: i64,
    pub kind: EventKind,
    pub workspace_id: String,
    pub node_id: String,
    pub payload_json: String,
    pub path: String,
}

#[verifier::ext_equal]
pub struct EventView {
    pub cursor: Seq<char>,
    pub created_at_unix_nano: i64,
    pub kind: EventKind,
    pub workspace_id: Seq<char>,
    pub node_id: Seq<char>,
    pub payload_json: Seq<char>,
    pub path: Seq<char>,
}

impl View for EventRecord {
    type V = EventView;

    open spec fn view(&self) -> EventView {
        EventView {
            cursor: self.cursor@,
            created_at_unix_nano: self.created_at_unix_nano,
            kind: self.kind,
            workspace_id: self.workspace_id@,
            node_id: self.node_id@,
            payload_json: self.payload_json@,
            path: self.path@,
        }
    }
}

#[derive(Debug, Clone, Copy, PartialEq, Eq, Structural)]
pub enum IndexingJobStatus {
    Queued,
    Running,
    Completed,
    Failed,
}

impl IndexingJobStatus {
    /// The name under which the status is stored.
    pub open spec fn name(self) -> Seq<char> {
        match self {
            IndexingJobStatus::Queued => "queued"@,
            IndexingJobStatus::Running => "running"@,
            IndexingJobStatus::Completed => "completed"@,
            IndexingJobStatus::Failed => "failed"@,
        }
    }

    /// The status that a stored name stands for.
    pub open spec fn named(value: Seq<char>) -> Option<IndexingJobStatus> {
        if value == "queued"@ {
            Some(IndexingJobStatus::Queued)
        } else if value == "running"@ {
            Some(IndexingJobStatus::Running)
        } else if value == "completed"@ {
            Some(IndexingJobStatus::Completed)
        } else if value == "failed"@ {
            Some(IndexingJobStatus::Failed)
        } else {
            None
        }
    }

    pub fn as_db(&self) -> (r: &'static str)
        ensures
            r@ == self.name(),
    {
        match self {
            IndexingJobStatus::Queued => "queued",
            IndexingJobStatus::Running => "running",
            IndexingJobStatus::Completed => "completed",
            IndexingJobStatus::Failed => "failed",
        }
    }

    pub fn from_db(value: &str) -> (r: Option<IndexingJobStatus>)
        ensures
            r == IndexingJobStatus::named(value@),
    {
        if same_text(value, "queued") {
            Some(IndexingJobStatus::Queued)
        } else if same_text(value, "running") {
            Some(IndexingJobStatus::Running)
        } else if same_text(value, "completed") {
            Some(IndexingJobStatus::Completed)
        } else if same_text(value, "failed") {
            Some(IndexingJobStatus::Failed)
        } else {
            None
        }
    }
}

/// A status is read back as it was stored.
pub proof fn lemma_job_status_round_trip(status: IndexingJobStatus)
    ensures
        IndexingJobStatus::named(status.name()) == Some(status),
{
    reveal_strlit("queued");
    reveal_strlit("running");
    reveal_strlit("completed");
    reveal_strlit("failed");
    assert("queued"@[0] == 'q');
    assert("running"@[0] == 'r');
    assert("completed"@[0] == 'c');
    assert("failed"@[0] == 'f');
}

#[derive(Debug, Clone, PartialEq, Eq)]
pub struct IndexingJobRecord {
    pub job_id: i64,
    pub workspace_id: String,
    pub node_id: String,
    pub node_version: u64,
    pub priority: u8,
    pub attempts: u32,
    pub status: IndexingJobStatus,
}

#[verifier::ext_equal]
pub struct JobView {
    pub job_id: i64,
    pub workspace_id: Seq<char>,
    pub node_id: Seq<char>,
    pub node_version: u64,
    pub priority: u8,
    pub attempts: u32,
    pub status: IndexingJobStatus,
}

impl View for IndexingJobRecord {
    type V = JobView;

    open spec fn view(&self) -> JobView {
        JobView {
            job_id: self.job_id,
            workspace_id: self.workspace_id@,
            node_id: self.node_id@,
            node_version: self.node_version,
            priority: self.priority,
            attempts: self.attempts,
            status: self.status,
        }
    }
}

#[derive(Debug, Clone, PartialEq, Eq)]
pub struct ResolveRefResult {
    pub path: Option<String>,
    pub redirect_to_node_id: Option<String>,
}

#[verifier::ext_equal]
pub struct ResolveView {
    pub path: Option<Seq<char>>,
    pub redirect_to_node_id: Option<Seq<char>>,
}

impl View for ResolveRefResult {
    type V = ResolveView;

    open spec fn view(&self) -> ResolveView {
        ResolveView {
            path: opt_string(self.path),
            redirect_to_node_id: opt_string(self.redirect_to_node_id),
        }
    }
}

#[derive(Debug, Clone, Copy, PartialEq, Eq, Structural)]
pub struct WorkspaceStats {
    pub file_count: u64,
    pub dir_count: u64,
    pub chunk_count: u64,
    pub event_count: u64,
    pub total_content_bytes: u64,
    pub queued_jobs: u64,
    pub running_jobs: u64,
    pub completed_jobs: u64,
    pub failed_jobs: u64,
    pub indexing_policy_full_files: u64,
    pub indexing_policy_headline_only_files: u64,
    pub indexing_policy_skipped_files: u64,
}

#[derive(Debug, Clone, Copy, PartialEq, Eq, Structural)]
pub struct IndexingMetricsSnapshot {
    pub queued_jobs: u64,
    pub running_jobs: u64,
    pub completed_jobs: u64,
    pub failed_jobs: u64,
    pub avg_running_latency_ms: Option<u64>,
    pub avg_completion_latency_ms: Option<u64>,
}

#[derive(Debug, Clone, Copy, PartialEq, Eq, Structural)]
pub enum HandleMode {
    Read,
    Write,
    ReadWrite,
}

impl HandleMode {
    pub fn allows_read(self) -> (r: bool)
        ensures
            r == (self != HandleMode::Write),
    {
        matches!(self, HandleMode::Read | HandleMode::ReadWrite)
    }

    pub fn allows_write(self) -> (r: bool)
        ensures
            r == (self != HandleMode::Read),
    {
        matches!(self, HandleMode::Write | HandleMode::ReadWrite)
    }
}

/// An open file: what is known of it, and its bytes.
#[derive(Debug, Clone, PartialEq, Eq)]
pub struct HandleContentRecord {
    pub node_id: String,
    pub path: String,
    pub content: Vec<u8>,
    pub attrs: NodeAttrs,
}

/// The words under which kinds, events and states are stored.
pub proof fn lemma_words_in_the_database(value: Seq<char>)
    ensures
        NodeKind::File.name() == "file"@,
        NodeKind::named("file"@) == Some(NodeKind::File),
        NodeKind::Dir.name() == "dir"@,
        NodeKind::named("dir"@) == Some(NodeKind::Dir),
        IndexingJobStatus::Queued.name() == "queued"@,
        IndexingJobStatus::named("queued"@) == Some(IndexingJobStatus::Queued),
        IndexingJobStatus::Running.name() == "running"@,
        IndexingJobStatus::named("running"@) == Some(IndexingJobStatus::Running),
        IndexingJobStatus::Completed.name() == "completed"@,
        IndexingJobStatus::named("completed"@) == Some(IndexingJobStatus::Completed),
        IndexingJobStatus::Failed.name() == "failed"@,
        IndexingJobStatus::named("failed"@) == Some(IndexingJobStatus::Failed),
        EventKind::NodeCreated.name() == "NodeCreated"@,
        EventKind::named("NodeCreated"@) == EventKind::NodeCreated,
        EventKind::NodeModified.name() == "NodeModified"@,
        EventKind::named("NodeModified"@) == EventKind::NodeModified,
        EventKind::NodeDeleted.name() == "NodeDeleted"@,
        EventKind::named("NodeDeleted"@) == EventKind::NodeDeleted,
        EventKind::NodeRenamed.name() == "NodeRenamed"@,
        EventKind::named("NodeRenamed"@) == EventKind::NodeRenamed,
        EventKind::AttrsChanged.name() == "AttrsChanged"@,
        EventKind::named("AttrsChanged"@) == EventKind::AttrsChanged,
        EventKind::IndexUpdated.name() == "IndexUpdated"@,
        EventKind::named("IndexUpdated"@) == EventKind::IndexUpdated,
        value != "file"@ && value != "dir"@ ==> NodeKind::named(value) is None,
        value != "queued"@ && value != "running"@ && value != "completed"@ && value != "failed"@
            ==> IndexingJobStatus::named(value) is None,
{
    lemma_node_kind_round_trip(NodeKind::File);
    lemma_node_kind_round_trip(NodeKind::Dir);
    lemma_job_status_round_trip(IndexingJobStatus::Queued);
    lemma_job_status_round_trip(IndexingJobStatus::Running);
    lemma_job_status_round_trip(IndexingJobStatus::Completed);
    lemma_job_status_round_trip(IndexingJobStatus::Failed);
    lemma_event_kind_round_trip(EventKind::NodeCreated);
    lemma_event_kind_round_trip(EventKind::NodeModified);
    lemma_event_kind_round_trip(EventKind::NodeDeleted);
    lemma_event_kind_round_trip(EventKind::NodeRenamed);
    lemma_event_kind_round_trip(EventKind::AttrsChanged);
    lemma_event_kind_round_trip(EventKind::IndexUpdated);
}

/// A handle can be read unless it is only for writing, and written unless it is only for reading.
pub proof fn lemma_what_handles_allow(mode: HandleMode, read: bool, write: bool)
    requires
        call_ensures(HandleMode::allows_read, (mode,), read),
        call_ensures(HandleMode::allows_write, (mode,), write),
    ensures
        read <==> mode == HandleMode::Read || mode == HandleMode::ReadWrite,
        write <==> mode == HandleMode::Write || mode == HandleMode::ReadWrite,
{
}

} // verus!

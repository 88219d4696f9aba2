//! Decisions on nodes. Each operation is split at the reads that it needs: a function takes what
//! was read and answers with an error or with a plan of what is to be written.
use crate::chunking::{chunk_views, ChunkView, IndexedChunk};
use crate::file_indexing::{IndexingPolicyDb, PreparedFileIndexing, PreparedView};
use crate::index_error::{agrees, ErrorView, IndexError};
use crate::model::{
    opt_node,
    opt_string,
    AttrsPatch,
    AttrsView,
    EventKind,
    FileRecord,
    FileView,
    NodeAttrs,
    NodeKind,
    NodeRecord,
    NodeView,
};
use crate::paths::{
    cursor_offset,
    join_path,
    joined,
    normalized,
    normalized_index_path,
    opt_text,
    parent_and_name,
    parse_cursor,
    split_parent_name,
};
use crate::text::{
    is_blank, join2, lemma_blank_trims_to_nothing, parse_signed, signed_decimal, signed_decimal_text,
    trim, trim_text,
};
use crate::utf8_text::byte_len;
use vstd::prelude::*;
use vstd::utf8::{decode_utf8, encode_utf8, valid_utf8};

verus! {

/// Permissions of a file that is created by writing it.
pub const NEW_FILE_MODE: u32 = 0o644;

/// Permissions of the root directory of a workspace.
pub const ROOT_MODE: u32 = 0o755;

// ---------------------------------------------------------------------------
// Preconditions shared by the operations
// ---------------------------------------------------------------------------

pub open spec fn workspace_required(exists: bool, workspace_id: Seq<char>) -> Result<(), ErrorView> {
    if exists {
        Ok(())
    } else {
        Err(ErrorView::WorkspaceNotFound(workspace_id))
    }
}

/// Every operation works on a workspace that exists.
pub fn require_workspace(exists: bool, workspace_id: &str) -> (r: Result<(), IndexError>)
    ensures
        match r {
            Ok(_) => workspace_required(exists, workspace_id@) is Ok,
            Err(e) => workspace_required(exists, workspace_id@) == Err::<(), ErrorView>(e@),
        },
{
    if exists {
        Ok(())
    } else {
        Err(IndexError::WorkspaceNotFound(workspace_id.to_owned()))
    }
}

pub open spec fn node_required(
    node: Option<NodeView>,
    workspace_id: Seq<char>,
    node_id: Seq<char>,
) -> Result<NodeView, ErrorView> {
    match node {
        Some(n) => Ok(n),
        None => Err(ErrorView::NodeIdNotFound { workspace_id, node_id }),
    }
}

/// The node that was asked for by its id.
pub fn require_node(node: Option<NodeRecord>, workspace_id: &str, node_id: &str) -> (r: Result<
    NodeRecord,
    IndexError,
>)
    ensures
        agrees(r, node_required(opt_node(node), workspace_id@, node_id@)),
{
    match node {
        Some(n) => Ok(n),
        None => Err(
            IndexError::NodeIdNotFound {
                workspace_id: workspace_id.to_owned(),
                node_id: node_id.to_owned(),
            },
        ),
    }
}

pub open spec fn node_required_at(
    node: Option<NodeView>,
    workspace_id: Seq<char>,
    path: Seq<char>,
) -> Result<NodeView, ErrorView> {
    match node {
        Some(n) => Ok(n),
        None => Err(ErrorView::NodeNotFound { workspace_id, path }),
    }
}

/// The node that was asked for by its path.
pub fn require_node_at(node: Option<NodeRecord>, workspace_id: &str, path: &str) -> (r: Result<
    NodeRecord,
    IndexError,
>)
    ensures
        agrees(r, node_required_at(opt_node(node), workspace_id@, path@)),
{
    match node {
        Some(n) => Ok(n),
        None => Err(
            IndexError::NodeNotFound {
                workspace_id: workspace_id.to_owned(),
                path: path.to_owned(),
            },
        ),
    }
}

/// The directory at a path: it has to exist, and to be one.
pub open spec fn directory_required(parent: Option<NodeView>, path: Seq<char>) -> Result<
    NodeView,
    ErrorView,
> {
    match parent {
        None => Err(ErrorView::ParentNotFound(path)),
        Some(n) => if n.attrs.kind == NodeKind::Dir {
            Ok(n)
        } else {
            Err(ErrorView::NotDirectory(n.node_id))
        },
    }
}

pub fn require_directory(parent: Option<NodeRecord>, path: &str) -> (r: Result<
    NodeRecord,
    IndexError,
>)
    ensures
        agrees(r, directory_required(opt_node(parent), path@)),
{
    match parent {
        None => Err(IndexError::ParentNotFound(path.to_owned())),
        Some(n) => {
            if n.attrs.kind == NodeKind::Dir {
                Ok(n)
            } else {
                Err(IndexError::NotDirectory(n.node_id))
            }
        },
    }
}

/// The path of a child of a node that was asked for by the id `parent_node_id`.
pub open spec fn child_path_of(
    parent: NodeView,
    parent_node_id: Seq<char>,
    name: Seq<char>,
) -> Result<Seq<char>, ErrorView> {
    if parent.attrs.kind != NodeKind::Dir {
        Err(ErrorView::NotDirectory(parent_node_id))
    } else {
        joined(parent.path, name)
    }
}

pub fn child_path(parent: &NodeRecord, parent_node_id: &str, name: &str) -> (r: Result<
    String,
    IndexError,
>)
    ensures
        agrees(r, child_path_of(parent@, parent_node_id@, name@)),
{
    if parent.attrs.kind != NodeKind::Dir {
        return Err(IndexError::NotDirectory(parent_node_id.to_owned()));
    }
    join_path(parent.path.as_str(), name)
}

/// An expected version admits the current one where it is absent, 0, or the same. A node that does
/// not exist has version 0.
pub open spec fn version_admits(if_version: Option<u64>, current: u64) -> bool {
    match if_version {
        Some(expected) => expected == 0 || expected == current,
        None => true,
    }
}

pub open spec fn version_conflict(if_version: Option<u64>, current: u64) -> ErrorView {
    ErrorView::VersionConflict { expected: if_version->0 as nat, found: current as nat }
}

pub fn check_version(if_version: Option<u64>, current: u64) -> (r: Result<(), IndexError>)
    ensures
        match r {
            Ok(_) => version_admits(if_version, current),
            Err(e) => !version_admits(if_version, current) && e@ == version_conflict(
                if_version,
                current,
            ),
        },
{
    match if_version {
        Some(expected) => {
            if expected != 0 && expected != current {
                Err(IndexError::VersionConflict { expected, found: current })
            } else {
                Ok(())
            }
        },
        None => Ok(()),
    }
}

/// The version behind `v`.
pub open spec fn next_version(v: u64) -> u64 {
    if v == u64::MAX {
        v
    } else {
        (v + 1) as u64
    }
}

// ---------------------------------------------------------------------------
// Rows
// ---------------------------------------------------------------------------

/// A node as the database hands it out.
#[derive(Debug, Clone)]
pub struct NodeRow {
    pub node_id: String,
    pub parent_node_id: Option<String>,
    pub name: String,
    pub path: String,
    pub kind: String,
    pub size: i64,
    pub mtime_ns: i64,
    pub mode: i64,
    pub version: i64,
    pub content_hash: String,
    pub mime: String,
}

/// A stored value that no record can hold.
#[derive(Debug, Clone, Copy, PartialEq, Eq, Structural)]
pub enum RowError {
    /// The text in the column is none of the words that it may hold.
    UnknownWord { column: usize },
    /// The integer in the column is out of range.
    OutOfRange { column: usize, value: i64 },
}

/// The record of a row, by the columns `kind` (4), `size` (5), `mode` (7) and `version` (8).
pub open spec fn row_node(row: NodeRow) -> Result<NodeView, RowError> {
    match NodeKind::named(row.kind@) {
        None => Err(RowError::UnknownWord { column: 4 }),
        Some(kind) => if row.size < 0 {
            Err(RowError::OutOfRange { column: 5, value: row.size })
        } else if !(0 <= row.mode <= u32::MAX) {
            Err(RowError::OutOfRange { column: 7, value: row.mode })
        } else if row.version < 0 {
            Err(RowError::OutOfRange { column: 8, value: row.version })
        } else {
            Ok(
                NodeView {
                    node_id: row.node_id@,
                    parent_node_id: opt_string(row.parent_node_id),
                    name: row.name@,
                    path: row.path@,
                    attrs: AttrsView {
                        kind,
                        size: row.size as u64,
                        mtime_unix_nano: row.mtime_ns,
                        mode: row.mode as u32,
                        version: row.version as u64,
                        content_hash: row.content_hash@,
                        mime: row.mime@,
                    },
                },
            )
        },
    }
}

pub fn map_node_row(row: NodeRow) -> (r: Result<NodeRecord, RowError>)
    ensures
        match r {
            Ok(n) => row_node(row) == Ok::<NodeView, RowError>(n@),
            Err(e) => row_node(row) == Err::<NodeView, RowError>(e),
        },
{
    let kind = match NodeKind::from_db(row.kind.as_str()) {
        Some(kind) => kind,
        None => {
            return Err(RowError::UnknownWord { column: 4 });
        },
    };
    if row.size < 0 {
        return Err(RowError::OutOfRange { column: 5, value: row.size });
    }
    if row.mode < 0 || row.mode > 0xffff_ffffi64 {
        return Err(RowError::OutOfRange { column: 7, value: row.mode });
    }
    if row.version < 0 {
        return Err(RowError::OutOfRange { column: 8, value: row.version });
    }
    Ok(
        NodeRecord {
            node_id: row.node_id,
            parent_node_id: row.parent_node_id,
            name: row.name,
            path: row.path,
            attrs: NodeAttrs {
                kind,
                size: row.size as u64,
                mtime_unix_nano: row.mtime_ns,
                mode: row.mode as u32,
                version: row.version as u64,
                content_hash: row.content_hash,
                mime: row.mime,
            },
        },
    )
}

// ---------------------------------------------------------------------------
// Writing a file
// ---------------------------------------------------------------------------

/// The media type that the file name of a path suggests.
pub uninterp spec fn guessed_mime(path: Seq<char>) -> Seq<char>;

/// `mime_guess::from_path`, then `MimeGuess::first_or_octet_stream` and `Mime::essence_str`: the
/// guess is a function of the path alone.
#[verifier::external_body]
fn guess_mime(path: &str) -> (r: String)
    ensures
        r@ == guessed_mime(path@),
{
    mime_guess::from_path(std::path::Path::new(path)).first_or_octet_stream().essence_str().to_string()
}

/// The media type of a file: the one that it has, or else the guess.
pub open spec fn mime_for_put(prev_mime: Seq<char>, guessed: Seq<char>) -> Seq<char> {
    if trim(prev_mime).len() == 0 {
        guessed
    } else {
        trim(prev_mime)
    }
}

/// Chooses between the media type on record and a guess.
pub fn choose_mime(prev_mime: &str, guessed: String) -> (r: String)
    ensures
        r@ == mime_for_put(prev_mime@, guessed@),
{
    let prev = trim_text(prev_mime);
    if prev.as_str().is_empty() {
        guessed
    } else {
        prev
    }
}

pub fn infer_mime_for_put(prev_mime: &str, path: &str) -> (r: String)
    ensures
        r@ == mime_for_put(prev_mime@, guessed_mime(path@)),
{
    choose_mime(prev_mime, guess_mime(path))
}

/// Where a file is written: its path, and the directory and the name that the path is made of.
#[derive(Debug, Clone)]
pub struct PutTarget {
    pub path: String,
    pub parent_path: String,
    pub name: String,
}

#[verifier::ext_equal]
pub struct PutTargetView {
    pub path: Seq<char>,
    pub parent_path: Seq<char>,
    pub name: Seq<char>,
}

impl View for PutTarget {
    type V = PutTargetView;

    open spec fn view(&self) -> PutTargetView {
        PutTargetView { path: self.path@, parent_path: self.parent_path@, name: self.name@ }
    }
}

pub open spec fn put_target_of(path: Seq<char>) -> Result<PutTargetView, ErrorView> {
    match normalized(path) {
        Err(e) => Err(e),
        Ok(p) => if p.len() == 0 {
            Err(ErrorView::InvalidPath(path))
        } else {
            match parent_and_name(p) {
                Err(e) => Err(e),
                Ok((parent_path, name)) => Ok(PutTargetView { path: p, parent_path, name }),
            }
        },
    }
}

pub fn put_target(path: &str) -> (r: Result<PutTarget, IndexError>)
    ensures
        agrees(r, put_target_of(path@)),
{
    let p = match normalized_index_path(path) {
        Ok(p) => p,
        Err(e) => {
            return Err(e);
        },
    };
    if p.as_str().is_empty() {
        return Err(IndexError::InvalidPath(path.to_owned()));
    }
    match split_parent_name(p.as_str()) {
        Ok((parent_path, name)) => Ok(PutTarget { path: p, parent_path, name }),
        Err(e) => Err(e),
    }
}

/// The file that is at the path already.
#[derive(Debug, Clone)]
pub struct ExistingFile {
    pub node_id: String,
    pub version: u64,
    pub mime: String,
}

/// What a new file row holds besides the content.
#[derive(Debug, Clone)]
pub struct NewFile {
    pub parent_node_id: String,
    pub name: String,
    pub path: String,
    pub mode: u32,
}

/// The rows that writing a file changes. A new row is inserted where `created` is given, else the
/// file's row is updated; the chunks replace those that the file has; an event and a job follow.
#[derive(Debug, Clone)]
pub struct PutPlan {
    pub file: FileRecord,
    pub created: Option<NewFile>,
    pub mime: String,
    pub indexing_policy: IndexingPolicyDb,
    pub chunks: Vec<IndexedChunk>,
    pub headline_only: bool,
    pub event: EventKind,
    pub job_node_version: i64,
    pub job_priority: u8,
}

#[verifier::ext_equal]
pub struct NewFileView {
    pub parent_node_id: Seq<char>,
    pub name: Seq<char>,
    pub path: Seq<char>,
    pub mode: u32,
}

#[verifier::ext_equal]
pub struct PutPlanView {
    pub file: FileView,
    pub created: Option<NewFileView>,
    pub mime: Seq<char>,
    pub indexing_policy: IndexingPolicyDb,
    pub chunks: Seq<ChunkView>,
    pub headline_only: bool,
    pub event: EventKind,
    pub job_node_version: int,
    pub job_priority: u8,
}

impl View for PutPlan {
    type V = PutPlanView;

    open spec fn view(&self) -> PutPlanView {
        PutPlanView {
            file: self.file@,
            created: match self.created {
                Some(n) => Some(
                    NewFileView {
                        parent_node_id: n.parent_node_id@,
                        name: n.name@,
                        path: n.path@,
                        mode: n.mode,
                    },
                ),
                None => None,
            },
            mime: self.mime@,
            indexing_policy: self.indexing_policy,
            chunks: chunk_views(self.chunks@),
            headline_only: self.headline_only,
            event: self.event,
            job_node_version: self.job_node_version as int,
            job_priority: self.job_priority,
        }
    }
}

#[verifier::ext_equal]
pub struct ExistingFileView {
    pub node_id: Seq<char>,
    pub version: u64,
    pub mime: Seq<char>,
}

pub open spec fn opt_existing(e: Option<ExistingFile>) -> Option<ExistingFileView> {
    match e {
        Some(x) => Some(
            ExistingFileView { node_id: x.node_id@, version: x.version, mime: x.mime@ },
        ),
        None => None,
    }
}

/// The version of the file at a path, 0 where there is none.
pub open spec fn existing_version(existing: Option<ExistingFileView>) -> u64 {
    match existing {
        Some(x) => x.version,
        None => 0,
    }
}

/// Writing a file. The directory has to be there, and the version has to be the expected one. A
/// new file gets version 1, any other the version behind its own.
pub open spec fn put_plan(
    target: PutTargetView,
    parent: Option<NodeView>,
    existing: Option<ExistingFileView>,
    fresh_node_id: Seq<char>,
    guessed: Seq<char>,
    if_version: Option<u64>,
    size: u64,
    prepared: PreparedView,
) -> Result<PutPlanView, ErrorView> {
    let version = next_version(existing_version(existing));
    match directory_required(parent, target.parent_path) {
        Err(e) => Err(e),
        Ok(dir) => if !version_admits(if_version, existing_version(existing)) {
            Err(version_conflict(if_version, existing_version(existing)))
        } else if version > i64::MAX {
            Err(ErrorView::NumericConversion)
        } else {
            Ok(
                PutPlanView {
                    file: FileView {
                        node_id: match existing {
                            Some(x) => x.node_id,
                            None => fresh_node_id,
                        },
                        version,
                        size,
                        content_hash: prepared.digest_hex,
                    },
                    created: match existing {
                        Some(x) => None,
                        None => Some(
                            NewFileView {
                                parent_node_id: dir.node_id,
                                name: target.name,
                                path: target.path,
                                mode: NEW_FILE_MODE,
                            },
                        ),
                    },
                    mime: mime_for_put(
                        match existing {
                            Some(x) => x.mime,
                            None => Seq::empty(),
                        },
                        guessed,
                    ),
                    indexing_policy: prepared.indexing_policy,
                    chunks: prepared.chunks,
                    headline_only: prepared.headline_only,
                    event: EventKind::NodeModified,
                    job_node_version: version as int,
                    job_priority: 0,
                },
            )
        },
    }
}

/// Plans a write, given the media type that the path suggests.
pub fn plan_put_with_guess(
    target: PutTarget,
    parent: Option<NodeRecord>,
    existing: Option<ExistingFile>,
    fresh_node_id: String,
    guessed: String,
    if_version: Option<u64>,
    size: u64,
    prepared: PreparedFileIndexing,
) -> (r: Result<PutPlan, IndexError>)
    ensures
        agrees(
            r,
            put_plan(
                target@,
                opt_node(parent),
                opt_existing(existing),
                fresh_node_id@,
                guessed@,
                if_version,
                size,
                prepared@,
            ),
        ),
{
    let dir = match require_directory(parent, target.parent_path.as_str()) {
        Ok(dir) => dir,
        Err(e) => {
            return Err(e);
        },
    };
    let current: u64 = match &existing {
        Some(x) => x.version,
        None => 0,
    };
    match check_version(if_version, current) {
        Ok(_) => {},
        Err(e) => {
            return Err(e);
        },
    }
    let version: u64 = current.saturating_add(1);
    if version > 0x7fff_ffff_ffff_ffffu64 {
        return Err(IndexError::NumericConversion);
    }
    let (node_id, created, mime) = match existing {
        Some(x) => (x.node_id, None, choose_mime(x.mime.as_str(), guessed)),
        None => {
            let n = NewFile {
                parent_node_id: dir.node_id,
                name: target.name,
                path: target.path,
                mode: NEW_FILE_MODE,
            };
            let mime = choose_mime("", guessed);
            proof {
                reveal_strlit("");
                assert(""@ =~= Seq::empty());
            }
            (fresh_node_id, Some(n), mime)
        },
    };
    Ok(
        PutPlan {
            file: FileRecord { node_id, version, size, content_hash: prepared.digest_hex },
            created,
            mime,
            indexing_policy: prepared.indexing_policy,
            chunks: prepared.chunks,
            headline_only: prepared.headline_only,
            event: EventKind::NodeModified,
            job_node_version: version as i64,
            job_priority: 0,
        },
    )
}

/// Plans to write a file: `parent` is what is at the target's directory, `existing` the file at the
/// target's path, and `fresh_node_id` the id for a file that is not there yet.
pub fn put_file_with_prepared(
    target: PutTarget,
    parent: Option<NodeRecord>,
    existing: Option<ExistingFile>,
    fresh_node_id: String,
    if_version: Option<u64>,
    size: u64,
    prepared: PreparedFileIndexing,
) -> (r: Result<PutPlan, IndexError>)
    ensures
        agrees(
            r,
            put_plan(
                target@,
                opt_node(parent),
                opt_existing(existing),
                fresh_node_id@,
                guessed_mime(target@.path),
                if_version,
                size,
                prepared@,
            ),
        ),
{
    let guessed = guess_mime(target.path.as_str());
    plan_put_with_guess(
        target,
        parent,
        existing,
        fresh_node_id,
        guessed,
        if_version,
        size,
        prepared,
    )
}

// ---------------------------------------------------------------------------
// Creating and removing nodes
// ---------------------------------------------------------------------------

/// A node to be inserted: version 1, no content. A file starts with one empty chunk on line 1, so
/// that it can be read at once.
#[derive(Debug, Clone)]
pub struct NewNode {
    pub node_id: String,
    pub parent_node_id: Option<String>,
    pub name: String,
    pub path: String,
    pub kind: NodeKind,
    pub mode: u32,
    pub empty_chunk: bool,
    pub event: EventKind,
}

#[verifier::ext_equal]
pub struct NewNodeView {
    pub node_id: Seq<char>,
    pub parent_node_id: Option<Seq<char>>,
    pub name: Seq<char>,
    pub path: Seq<char>,
    pub kind: NodeKind,
    pub mode: u32,
    pub empty_chunk: bool,
    pub event: EventKind,
}

impl View for NewNode {
    type V = NewNodeView;

    open spec fn view(&self) -> NewNodeView {
        NewNodeView {
            node_id: self.node_id@,
            parent_node_id: opt_string(self.parent_node_id),
            name: self.name@,
            path: self.path@,
            kind: self.kind,
            mode: self.mode,
            empty_chunk: self.empty_chunk,
            event: self.event,
        }
    }
}

/// The root directory that a workspace is created with.
pub open spec fn root_node(fresh_node_id: Seq<char>) -> NewNodeView {
    NewNodeView {
        node_id: fresh_node_id,
        parent_node_id: None,
        name: Seq::empty(),
        path: Seq::empty(),
        kind: NodeKind::Dir,
        mode: ROOT_MODE,
        empty_chunk: false,
        event: EventKind::NodeCreated,
    }
}

/// Plans a workspace: `inserted` tells whether its row could be added.
pub fn create_workspace(inserted: bool, workspace_id: &str, fresh_node_id: String) -> (r: Result<
    NewNode,
    IndexError,
>)
    ensures
        agrees(
            r,
            if inserted {
                Ok(root_node(fresh_node_id@))
            } else {
                Err(ErrorView::WorkspaceAlreadyExists(workspace_id@))
            },
        ),
{
    if !inserted {
        return Err(IndexError::WorkspaceAlreadyExists(workspace_id.to_owned()));
    }
    Ok(
        NewNode {
            node_id: fresh_node_id,
            parent_node_id: None,
            name: String::new(),
            path: String::new(),
            kind: NodeKind::Dir,
            mode: ROOT_MODE,
            empty_chunk: false,
            event: EventKind::NodeCreated,
        },
    )
}

/// Creating a node finds one that is there already, or inserts one.
#[derive(Debug, Clone)]
pub enum CreatePlan {
    Existing(NodeRecord),
    Insert(NewNode),
}

#[verifier::ext_equal]
pub enum CreatePlanView {
    Existing(NodeView),
    Insert(NewNodeView),
}

impl View for CreatePlan {
    type V = CreatePlanView;

    open spec fn view(&self) -> CreatePlanView {
        match *self {
            CreatePlan::Existing(n) => CreatePlanView::Existing(n@),
            CreatePlan::Insert(n) => CreatePlanView::Insert(n@),
        }
    }
}

/// Creating a node at `path`, the path of the child `name` of the node `parent_node_id`.
pub open spec fn create_plan(
    parent_node_id: Seq<char>,
    name: Seq<char>,
    path: Seq<char>,
    existing: Option<NodeView>,
    kind: NodeKind,
    mode: u32,
    exclusive: bool,
    fresh_node_id: Seq<char>,
) -> Result<CreatePlanView, ErrorView> {
    match existing {
        Some(n) => if exclusive {
            Err(ErrorView::AlreadyExistsAtPath { path })
        } else {
            Ok(CreatePlanView::Existing(n))
        },
        None => Ok(
            CreatePlanView::Insert(
                NewNodeView {
                    node_id: fresh_node_id,
                    parent_node_id: Some(parent_node_id),
                    name,
                    path,
                    kind,
                    mode,
                    empty_chunk: kind == NodeKind::File,
                    event: EventKind::NodeCreated,
                },
            ),
        ),
    }
}

pub fn create_node(
    parent_node_id: &str,
    name: &str,
    path: String,
    existing: Option<NodeRecord>,
    kind: NodeKind,
    mode: u32,
    exclusive: bool,
    fresh_node_id: String,
) -> (r: Result<CreatePlan, IndexError>)
    ensures
        agrees(
            r,
            create_plan(
                parent_node_id@,
                name@,
                path@,
                opt_node(existing),
                kind,
                mode,
                exclusive,
                fresh_node_id@,
            ),
        ),
{
    match existing {
        Some(n) => {
            if exclusive {
                Err(IndexError::AlreadyExistsAtPath { path })
            } else {
                Ok(CreatePlan::Existing(n))
            }
        },
        None => Ok(
            CreatePlan::Insert(
                NewNode {
                    node_id: fresh_node_id,
                    parent_node_id: Some(parent_node_id.to_owned()),
                    name: name.to_owned(),
                    path,
                    kind,
                    mode,
                    empty_chunk: kind == NodeKind::File,
                    event: EventKind::NodeCreated,
                },
            ),
        ),
    }
}

/// A node to be deleted.
#[derive(Debug, Clone)]
pub struct UnlinkPlan {
    pub node_id: String,
    pub event: EventKind,
}

#[verifier::ext_equal]
pub struct UnlinkPlanView {
    pub node_id: Seq<char>,
    pub event: EventKind,
}

impl View for UnlinkPlan {
    type V = UnlinkPlanView;

    open spec fn view(&self) -> UnlinkPlanView {
        UnlinkPlanView { node_id: self.node_id@, event: self.event }
    }
}

/// Removing what is at `path`: a directory has to be empty.
pub open spec fn unlink_plan(
    workspace_id: Seq<char>,
    path: Seq<char>,
    target: Option<NodeView>,
    has_children: bool,
    if_version: Option<u64>,
) -> Result<UnlinkPlanView, ErrorView> {
    match node_required_at(target, workspace_id, path) {
        Err(e) => Err(e),
        Ok(n) => if !version_admits(if_version, n.attrs.version) {
            Err(version_conflict(if_version, n.attrs.version))
        } else if n.attrs.kind == NodeKind::Dir && has_children {
            Err(ErrorView::DirectoryNotEmpty(n.node_id))
        } else {
            Ok(UnlinkPlanView { node_id: n.node_id, event: EventKind::NodeDeleted })
        },
    }
}

pub fn unlink(
    workspace_id: &str,
    path: &str,
    target: Option<NodeRecord>,
    has_children: bool,
    if_version: Option<u64>,
) -> (r: Result<UnlinkPlan, IndexError>)
    ensures
        agrees(
            r,
            unlink_plan(workspace_id@, path@, opt_node(target), has_children, if_version),
        ),
{
    let n = match require_node_at(target, workspace_id, path) {
        Ok(n) => n,
        Err(e) => {
            return Err(e);
        },
    };
    match check_version(if_version, n.attrs.version) {
        Ok(_) => {},
        Err(e) => {
            return Err(e);
        },
    }
    if n.attrs.kind == NodeKind::Dir && has_children {
        return Err(IndexError::DirectoryNotEmpty(n.node_id));
    }
    Ok(UnlinkPlan { node_id: n.node_id, event: EventKind::NodeDeleted })
}

// ---------------------------------------------------------------------------
// Renaming
// ---------------------------------------------------------------------------

/// The two paths of a renaming. Both parents have to be directories.
pub open spec fn rename_paths_of(
    from_parent: NodeView,
    from_parent_node_id: Seq<char>,
    from_name: Seq<char>,
    to_parent: NodeView,
    to_parent_node_id: Seq<char>,
    to_name: Seq<char>,
) -> Result<(Seq<char>, Seq<char>), ErrorView> {
    if from_parent.attrs.kind != NodeKind::Dir {
        Err(ErrorView::NotDirectory(from_parent_node_id))
    } else if to_parent.attrs.kind != NodeKind::Dir {
        Err(ErrorView::NotDirectory(to_parent_node_id))
    } else {
        match (joined(from_parent.path, from_name), joined(to_parent.path, to_name)) {
            (Err(e), _) => Err(e),
            (_, Err(e)) => Err(e),
            (Ok(from), Ok(to)) => Ok((from, to)),
        }
    }
}

pub fn rename_paths(
    from_parent: &NodeRecord,
    from_parent_node_id: &str,
    from_name: &str,
    to_parent: &NodeRecord,
    to_parent_node_id: &str,
    to_name: &str,
) -> (r: Result<(String, String), IndexError>)
    ensures
        match r {
            Ok((from, to)) => rename_paths_of(
                from_parent@,
                from_parent_node_id@,
                from_name@,
                to_parent@,
                to_parent_node_id@,
                to_name@,
            ) == Ok::<(Seq<char>, Seq<char>), ErrorView>((from@, to@)),
            Err(e) => rename_paths_of(
                from_parent@,
                from_parent_node_id@,
                from_name@,
                to_parent@,
                to_parent_node_id@,
                to_name@,
            ) == Err::<(Seq<char>, Seq<char>), ErrorView>(e@),
        },
{
    if from_parent.attrs.kind != NodeKind::Dir {
        return Err(IndexError::NotDirectory(from_parent_node_id.to_owned()));
    }
    if to_parent.attrs.kind != NodeKind::Dir {
        return Err(IndexError::NotDirectory(to_parent_node_id.to_owned()));
    }
    let from = match join_path(from_parent.path.as_str(), from_name) {
        Ok(p) => p,
        Err(e) => {
            return Err(e);
        },
    };
    match join_path(to_parent.path.as_str(), to_name) {
        Ok(to) => Ok((from, to)),
        Err(e) => Err(e),
    }
}

/// How the paths below a renamed directory change: those that are `LIKE` the pattern become the
/// new prefix followed by what `substr` leaves of them from a position, counted from 1, on.
#[derive(Debug, Clone)]
pub struct PathRewrite {
    pub new_prefix: String,
    pub substr_from: i64,
    pub like_pattern: String,
}

#[verifier::ext_equal]
pub struct PathRewriteView {
    pub new_prefix: Seq<char>,
    pub substr_from: int,
    pub like_pattern: Seq<char>,
}

/// The rows that a renaming changes: what is at the new path goes, the node moves, and so does
/// what is below it.
#[derive(Debug, Clone)]
pub struct RenamePlan {
    pub replaced_node_id: Option<String>,
    pub node_id: String,
    pub parent_node_id: String,
    pub name: String,
    pub path: String,
    pub version: u64,
    /// The media type of a file under its new name; that of a directory stays.
    pub mime: Option<String>,
    pub below: Option<PathRewrite>,
    pub event: EventKind,
}

#[verifier::ext_equal]
pub struct RenamePlanView {
    pub replaced_node_id: Option<Seq<char>>,
    pub node_id: Seq<char>,
    pub parent_node_id: Seq<char>,
    pub name: Seq<char>,
    pub path: Seq<char>,
    pub version: u64,
    pub mime: Option<Seq<char>>,
    pub below: Option<PathRewriteView>,
    pub event: EventKind,
}

impl View for RenamePlan {
    type V = RenamePlanView;

    open spec fn view(&self) -> RenamePlanView {
        RenamePlanView {
            replaced_node_id: opt_string(self.replaced_node_id),
            node_id: self.node_id@,
            parent_node_id: self.parent_node_id@,
            name: self.name@,
            path: self.path@,
            version: self.version,
            mime: opt_string(self.mime),
            below: match self.below {
                Some(b) => Some(
                    PathRewriteView {
                        new_prefix: b.new_prefix@,
                        substr_from: b.substr_from as int,
                        like_pattern: b.like_pattern@,
                    },
                ),
                None => None,
            },
            event: self.event,
        }
    }
}

/// The rewriting of the paths below `from`. The position is counted in bytes.
pub open spec fn rewrite_below(from: Seq<char>, to: Seq<char>) -> PathRewriteView {
    PathRewriteView {
        new_prefix: to + seq!['/'],
        substr_from: encode_utf8(from + seq!['/']).len() as int + 1,
        like_pattern: from + seq!['/'] + seq!['%'],
    }
}

/// Renaming what is at `from`. What is at `to` is in the way unless it may be overwritten; a
/// directory with children is never overwritten.
pub open spec fn rename_plan(
    workspace_id: Seq<char>,
    from: Seq<char>,
    to: Seq<char>,
    to_parent_node_id: Seq<char>,
    to_name: Seq<char>,
    source: Option<NodeView>,
    dest: Option<NodeView>,
    dest_has_children: bool,
    overwrite: bool,
    if_version: Option<u64>,
    guessed: Seq<char>,
) -> Result<RenamePlanView, ErrorView> {
    match node_required_at(source, workspace_id, from) {
        Err(e) => Err(e),
        Ok(n) => if !version_admits(if_version, n.attrs.version) {
            Err(version_conflict(if_version, n.attrs.version))
        } else if dest is Some && !overwrite {
            Err(ErrorView::AlreadyExistsAtPath { path: to })
        } else if dest is Some && dest->0.attrs.kind == NodeKind::Dir && dest_has_children {
            Err(ErrorView::DirectoryNotEmpty(dest->0.node_id))
        } else if n.attrs.kind == NodeKind::Dir && rewrite_below(from, to).substr_from > i64::MAX {
            Err(ErrorView::NumericConversion)
        } else {
            Ok(
                RenamePlanView {
                    replaced_node_id: match dest {
                        Some(d) => Some(d.node_id),
                        None => None,
                    },
                    node_id: n.node_id,
                    parent_node_id: to_parent_node_id,
                    name: to_name,
                    path: to,
                    version: next_version(n.attrs.version),
                    mime: if n.attrs.kind == NodeKind::File {
                        Some(mime_for_put(Seq::empty(), guessed))
                    } else {
                        None
                    },
                    below: if n.attrs.kind == NodeKind::Dir {
                        Some(rewrite_below(from, to))
                    } else {
                        None
                    },
                    event: EventKind::NodeRenamed,
                },
            )
        },
    }
}

fn plan_rewrite(from: &str, to: &str) -> (r: Option<PathRewrite>)
    ensures
        match r {
            Some(b) => {
                let v = PathRewriteView {
                    new_prefix: b.new_prefix@,
                    substr_from: b.substr_from as int,
                    like_pattern: b.like_pattern@,
                };
                v == rewrite_below(from@, to@)
            },
            None => rewrite_below(from@, to@).substr_from > i64::MAX,
        },
{
    proof {
        reveal_strlit("/");
        reveal_strlit("%");
        assert("/"@ =~= seq!['/']);
        assert("%"@ =~= seq!['%']);
    }
    let old_prefix = join2(from, "/");
    let n = byte_len(old_prefix.as_str());
    if n as u64 >= 0x7fff_ffff_ffff_ffffu64 {
        return None;
    }
    Some(
        PathRewrite {
            new_prefix: join2(to, "/"),
            substr_from: (n as u64 + 1) as i64,
            like_pattern: join2(old_prefix.as_str(), "%"),
        },
    )
}

/// Plans a renaming, given the media type that the new path suggests.
pub fn plan_rename_with_guess(
    workspace_id: &str,
    from: &str,
    to: String,
    to_parent_node_id: &str,
    to_name: &str,
    source: Option<NodeRecord>,
    dest: Option<NodeRecord>,
    dest_has_children: bool,
    overwrite: bool,
    if_version: Option<u64>,
    guessed: String,
) -> (r: Result<RenamePlan, IndexError>)
    ensures
        agrees(
            r,
            rename_plan(
                workspace_id@,
                from@,
                to@,
                to_parent_node_id@,
                to_name@,
                opt_node(source),
                opt_node(dest),
                dest_has_children,
                overwrite,
                if_version,
                guessed@,
            ),
        ),
{
    let n = match require_node_at(source, workspace_id, from) {
        Ok(n) => n,
        Err(e) => {
            return Err(e);
        },
    };
    match check_version(if_version, n.attrs.version) {
        Ok(_) => {},
        Err(e) => {
            return Err(e);
        },
    }
    let replaced_node_id = match dest {
        Some(d) => {
            if !overwrite {
                return Err(IndexError::AlreadyExistsAtPath { path: to });
            }
            if d.attrs.kind == NodeKind::Dir && dest_has_children {
                return Err(IndexError::DirectoryNotEmpty(d.node_id));
            }
            Some(d.node_id)
        },
        None => None,
    };
    let (mime, below) = match n.attrs.kind {
        NodeKind::File => {
            let mime = choose_mime("", guessed);
            proof {
                reveal_strlit("");
                assert(""@ =~= Seq::empty());
            }
            (Some(mime), None)
        },
        NodeKind::Dir => match plan_rewrite(from, to.as_str()) {
            Some(b) => (None, Some(b)),
            None => {
                return Err(IndexError::NumericConversion);
            },
        },
    };
    Ok(
        RenamePlan {
            replaced_node_id,
            node_id: n.node_id,
            parent_node_id: to_parent_node_id.to_owned(),
            name: to_name.to_owned(),
            path: to,
            version: n.attrs.version.saturating_add(1),
            mime,
            below,
            event: EventKind::NodeRenamed,
        },
    )
}

/// Plans a renaming from the path `from` to the path `to`, given what is at the two.
pub fn rename(
    workspace_id: &str,
    from: &str,
    to: String,
    to_parent_node_id: &str,
    to_name: &str,
    source: Option<NodeRecord>,
    dest: Option<NodeRecord>,
    dest_has_children: bool,
    overwrite: bool,
    if_version: Option<u64>,
) -> (r: Result<RenamePlan, IndexError>)
    ensures
        agrees(
            r,
            rename_plan(
                workspace_id@,
                from@,
                to@,
                to_parent_node_id@,
                to_name@,
                opt_node(source),
                opt_node(dest),
                dest_has_children,
                overwrite,
                if_version,
                guessed_mime(to@),
            ),
        ),
{
    let guessed = guess_mime(to.as_str());
    plan_rename_with_guess(
        workspace_id,
        from,
        to,
        to_parent_node_id,
        to_name,
        source,
        dest,
        dest_has_children,
        overwrite,
        if_version,
        guessed,
    )
}

// ---------------------------------------------------------------------------
// Attributes
// ---------------------------------------------------------------------------

/// The attributes that a patch makes of a node's.
#[derive(Debug, Clone, Copy, PartialEq, Eq, Structural)]
pub struct AttrsPlan {
    pub mode: u32,
    pub mtime_unix_nano: i64,
    pub version: u64,
    pub event: EventKind,
}

pub open spec fn attrs_plan(attrs: AttrsView, patch: AttrsPatch) -> AttrsPlan {
    AttrsPlan {
        mode: match patch.mode {
            Some(m) => m,
            None => attrs.mode,
        },
        mtime_unix_nano: match patch.mtime_unix_nano {
            Some(t) => t,
            None => attrs.mtime_unix_nano,
        },
        version: next_version(attrs.version),
        event: EventKind::AttrsChanged,
    }
}

pub fn set_attrs(attrs: &NodeAttrs, patch: AttrsPatch) -> (r: AttrsPlan)
    ensures
        r == attrs_plan(attrs@, patch),
{
    AttrsPlan {
        mode: match patch.mode {
            Some(m) => m,
            None => attrs.mode,
        },
        mtime_unix_nano: match patch.mtime_unix_nano {
            Some(t) => t,
            None => attrs.mtime_unix_nano,
        },
        version: attrs.version.saturating_add(1),
        event: EventKind::AttrsChanged,
    }
}

/// The attributes, unless the caller knows this version of them.
pub fn get_attrs_if_changed(attrs: NodeAttrs, known_version: u64) -> (r: Option<NodeAttrs>)
    ensures
        attrs.version == known_version ==> r is None,
        attrs.version != known_version ==> r == Some(attrs),
{
    if attrs.version == known_version {
        None
    } else {
        Some(attrs)
    }
}

// ---------------------------------------------------------------------------
// Listing a directory
// ---------------------------------------------------------------------------

pub const MAX_DIR_PAGE: u32 = 1024;

/// A page of a listing: how many entries to skip, and how many to take.
#[derive(Debug, Clone, Copy, PartialEq, Eq, Structural)]
pub struct DirPage {
    pub offset: i64,
    pub page_size: i64,
}

pub open spec fn dir_page_size(limit: u32) -> int {
    if limit < 1 {
        1
    } else if limit > MAX_DIR_PAGE {
        MAX_DIR_PAGE as int
    } else {
        limit as int
    }
}

pub open spec fn dir_page_of(
    dir: NodeView,
    node_id: Seq<char>,
    cursor: Option<Seq<char>>,
    limit: u32,
) -> Result<(int, int), ErrorView> {
    if dir.attrs.kind != NodeKind::Dir {
        Err(ErrorView::NotDirectory(node_id))
    } else {
        match cursor_offset(cursor) {
            Ok(offset) => Ok((offset, dir_page_size(limit))),
            Err(e) => Err(e),
        }
    }
}

/// The page of a directory's listing that a request asks for.
pub fn read_dir_page(dir: &NodeRecord, node_id: &str, cursor: Option<&str>, limit: u32) -> (r: Result<
    DirPage,
    IndexError,
>)
    ensures
        match r {
            Ok(p) => p.offset >= 0 && dir_page_of(dir@, node_id@, opt_text(cursor), limit) == Ok::<
                (int, int),
                ErrorView,
            >((p.offset as int, p.page_size as int)),
            Err(e) => dir_page_of(dir@, node_id@, opt_text(cursor), limit) == Err::<
                (int, int),
                ErrorView,
            >(e@),
        },
{
    if dir.attrs.kind != NodeKind::Dir {
        return Err(IndexError::NotDirectory(node_id.to_owned()));
    }
    let offset = match parse_cursor(cursor) {
        Ok(offset) => offset,
        Err(e) => {
            return Err(e);
        },
    };
    let page_size: i64 = if limit < 1 {
        1
    } else if limit > MAX_DIR_PAGE {
        MAX_DIR_PAGE as i64
    } else {
        limit as i64
    };
    Ok(DirPage { offset, page_size })
}

/// The cursor behind a page: none behind one that is not full.
pub open spec fn next_cursor_of(offset: int, page_size: int, returned: int) -> Option<Seq<char>> {
    if returned == page_size {
        Some(signed_decimal(offset + page_size))
    } else {
        None
    }
}

pub fn next_dir_cursor(page: DirPage, returned: usize) -> (r: Option<String>)
    requires
        0 <= page.offset,
        0 <= page.page_size,
        page.offset + page.page_size <= i64::MAX,
    ensures
        opt_string(r) == next_cursor_of(
            page.offset as int,
            page.page_size as int,
            returned as int,
        ),
{
    if returned as u64 == page.page_size as u64 {
        Some(signed_decimal_text(page.offset + page.page_size))
    } else {
        None
    }
}

// ---------------------------------------------------------------------------
// Laws
// ---------------------------------------------------------------------------

/// A version is checked only where one is expected, and 0 expects none; the next version is one
/// more.
pub proof fn lemma_versions(expected: u64, current: u64)
    ensures
        version_admits(None, current),
        version_admits(Some(0), current),
        expected != 0 && expected != current ==> !version_admits(Some(expected), current),
        version_admits(Some(current), current),
        current < u64::MAX ==> next_version(current) == current + 1,
        version_conflict(Some(expected), current) == (ErrorView::VersionConflict {
            expected: expected as nat,
            found: current as nat,
        }),
{
}

/// Whenever a put succeeds, what is recorded is what was put: its digest, its size, and of the
/// index exactly what was prepared of it, whether the file is new or was there before. A new file
/// gets the fresh id and version 1, and is inserted at the target; one that was there keeps its id
/// and gets the next version.
pub proof fn lemma_put_records_what_was_put(
    target: PutTargetView,
    parent: Option<NodeView>,
    existing: Option<ExistingFileView>,
    fresh_node_id: Seq<char>,
    guessed: Seq<char>,
    if_version: Option<u64>,
    size: u64,
    prepared: PreparedView,
    plan: PutPlanView,
)
    requires
        put_plan(target, parent, existing, fresh_node_id, guessed, if_version, size, prepared)
            == Ok::<PutPlanView, ErrorView>(plan),
    ensures
        plan.chunks == prepared.chunks,
        plan.headline_only == prepared.headline_only,
        plan.indexing_policy == prepared.indexing_policy,
        plan.file.content_hash == prepared.digest_hex,
        plan.file.size == size,
        plan.event == EventKind::NodeModified,
        plan.job_node_version == plan.file.version,
        plan.job_priority == 0,
        parent is Some && parent->0.attrs.kind == NodeKind::Dir,
        match existing {
            Some(x) => {
                &&& plan.file.node_id == x.node_id
                &&& plan.file.version == x.version + 1
                &&& plan.created is None
                &&& !is_blank(x.mime) ==> plan.mime == trim(x.mime)
                &&& is_blank(x.mime) ==> plan.mime == guessed
                &&& if_version is None || if_version->0 == 0 || if_version->0 == x.version
            },
            None => {
                &&& plan.file.node_id == fresh_node_id
                &&& plan.file.version == 1
                &&& plan.mime == guessed
                &&& plan.created matches Some(n) && n.parent_node_id == parent->0.node_id && n.name
                    == target.name && n.path == target.path && n.mode == 0o644
                &&& if_version is None || if_version->0 == 0
            },
        },
{
    lemma_blank_trims_to_nothing(Seq::empty());
    if existing is Some {
        lemma_blank_trims_to_nothing(existing->0.mime);
    }
}

/// A put succeeds where there is a directory to put into, nobody has written in between, and the
/// next version can be stored; else it is refused for the first of these that fails.
pub proof fn lemma_put_is_refused(
    target: PutTargetView,
    parent: Option<NodeView>,
    existing: Option<ExistingFileView>,
    fresh_node_id: Seq<char>,
    guessed: Seq<char>,
    if_version: Option<u64>,
    size: u64,
    prepared: PreparedView,
)
    ensures
        ({
            let r = put_plan(
                target,
                parent,
                existing,
                fresh_node_id,
                guessed,
                if_version,
                size,
                prepared,
            );
            let found: u64 = match existing {
                Some(x) => x.version,
                None => 0,
            };
            let stale = if_version matches Some(v) && v != 0 && v != found;
            &&& parent is None ==> r == Err::<PutPlanView, ErrorView>(
                ErrorView::ParentNotFound(target.parent_path),
            )
            &&& parent is Some && parent->0.attrs.kind == NodeKind::File ==> r == Err::<
                PutPlanView,
                ErrorView,
            >(ErrorView::NotDirectory(parent->0.node_id))
            &&& parent is Some && parent->0.attrs.kind == NodeKind::Dir && stale ==> r == Err::<
                PutPlanView,
                ErrorView,
            >(
                ErrorView::VersionConflict { expected: if_version->0 as nat, found: found as nat },
            )
            &&& parent is Some && parent->0.attrs.kind == NodeKind::Dir && !stale && found
                < i64::MAX ==> r is Ok
        }),
{
}

/// A text that was put within the limit is found again: its plan has chunks, and every byte of it
/// is in one of them, but for white space before the first heading of a Markdown text.
pub proof fn lemma_put_text_is_found(
    target: PutTargetView,
    parent: Option<NodeView>,
    existing: Option<ExistingFileView>,
    fresh_node_id: Seq<char>,
    guessed: Seq<char>,
    if_version: Option<u64>,
    size: u64,
    content: Seq<u8>,
    skip_chunking_over_bytes: int,
    headline_each_bytes: int,
    plan: PutPlanView,
    k: int,
)
    requires
        valid_utf8(content),
        content.len() <= skip_chunking_over_bytes,
        put_plan(
            target,
            parent,
            existing,
            fresh_node_id,
            guessed,
            if_version,
            size,
            crate::file_indexing::prepared_file(
                target.path,
                content,
                crate::file_indexing::blake3_hex(content),
                skip_chunking_over_bytes,
                headline_each_bytes,
            ),
        ) == Ok::<PutPlanView, ErrorView>(plan),
        0 <= k < content.len(),
        crate::chunking::is_markdown(target.path) && !is_blank(decode_utf8(content)) ==> {
            let first = crate::chunking::first_heading(content, 0);
            first <= k || !is_blank(decode_utf8(content.subrange(0, first)))
        },
    ensures
        plan.indexing_policy == IndexingPolicyDb::Full,
        !plan.headline_only,
        plan.chunks.len() > 0,
        crate::chunking::is_in_chunk(plan.chunks, content, k),
        plan.file.content_hash == crate::file_indexing::blake3_hex(content),
{
    vstd::utf8::decode_utf8_encode_utf8(content);
    crate::chunking::lemma_text_has_chunks(target.path, decode_utf8(content));
    crate::chunking::lemma_every_byte_is_in_a_chunk(target.path, decode_utf8(content), k);
}

/// What is at a path already is handed back, unless something new was asked for; else a node is
/// inserted as it was asked for, and a file starts with an empty chunk.
pub proof fn lemma_create_does_what_was_asked(
    parent_node_id: Seq<char>,
    name: Seq<char>,
    path: Seq<char>,
    existing: Option<NodeView>,
    kind: NodeKind,
    mode: u32,
    exclusive: bool,
    fresh_node_id: Seq<char>,
)
    ensures
        ({
            let r = create_plan(
                parent_node_id,
                name,
                path,
                existing,
                kind,
                mode,
                exclusive,
                fresh_node_id,
            );
            match (existing, r) {
                (Some(_), Err(ErrorView::AlreadyExistsAtPath { path: p })) => exclusive && p == path,
                (Some(n), Ok(CreatePlanView::Existing(m))) => !exclusive && m == n,
                (None, Ok(CreatePlanView::Insert(n))) => {
                    &&& n.node_id == fresh_node_id
                    &&& n.parent_node_id == Some(parent_node_id)
                    &&& n.name == name
                    &&& n.path == path
                    &&& n.kind == kind
                    &&& n.mode == mode
                    &&& n.empty_chunk <==> kind == NodeKind::File
                    &&& n.event == EventKind::NodeCreated
                },
                (_, _) => false,
            }
        }),
{
}

/// The root of a workspace is a directory without a name, at the empty path.
pub proof fn lemma_root_is_directory(fresh_node_id: Seq<char>)
    ensures
        root_node(fresh_node_id).node_id == fresh_node_id,
        root_node(fresh_node_id).parent_node_id is None,
        root_node(fresh_node_id).name.len() == 0,
        root_node(fresh_node_id).path.len() == 0,
        root_node(fresh_node_id).kind == NodeKind::Dir,
        root_node(fresh_node_id).mode == 0o755,
        !root_node(fresh_node_id).empty_chunk,
        root_node(fresh_node_id).event == EventKind::NodeCreated,
{
}

/// Exactly what is there, is of the expected version and is no directory with something in it can
/// be removed, and it is what is removed.
pub proof fn lemma_unlink_removes_target(
    workspace_id: Seq<char>,
    path: Seq<char>,
    target: Option<NodeView>,
    has_children: bool,
    if_version: Option<u64>,
)
    ensures
        ({
            let r = unlink_plan(workspace_id, path, target, has_children, if_version);
            match target {
                None => r == Err::<UnlinkPlanView, ErrorView>(
                    ErrorView::NodeNotFound { workspace_id, path },
                ),
                Some(n) => {
                    let stale = if_version matches Some(v) && v != 0 && v != n.attrs.version;
                    let full = n.attrs.kind == NodeKind::Dir && has_children;
                    match r {
                        Ok(p) => !stale && !full && p.node_id == n.node_id && p.event
                            == EventKind::NodeDeleted,
                        Err(ErrorView::VersionConflict { expected, found }) => stale && expected
                            == if_version->0 && found == n.attrs.version,
                        Err(ErrorView::DirectoryNotEmpty(id)) => !stale && full && id == n.node_id,
                        Err(_) => false,
                    }
                },
            }
        }),
{
}

/// A rename that succeeds moves the node under its new name and directory, one version on, and
/// takes along what is below a directory; what it replaces was to be replaced and held nothing.
pub proof fn lemma_rename_moves_source(
    workspace_id: Seq<char>,
    from: Seq<char>,
    to: Seq<char>,
    to_parent_node_id: Seq<char>,
    to_name: Seq<char>,
    source: Option<NodeView>,
    dest: Option<NodeView>,
    dest_has_children: bool,
    overwrite: bool,
    if_version: Option<u64>,
    guessed: Seq<char>,
)
    ensures
        ({
            let r = rename_plan(
                workspace_id,
                from,
                to,
                to_parent_node_id,
                to_name,
                source,
                dest,
                dest_has_children,
                overwrite,
                if_version,
                guessed,
            );
            match source {
                None => r == Err::<RenamePlanView, ErrorView>(
                    ErrorView::NodeNotFound { workspace_id, path: from },
                ),
                Some(n) => {
                    let stale = if_version matches Some(v) && v != 0 && v != n.attrs.version;
                    let full = dest matches Some(d) && d.attrs.kind == NodeKind::Dir
                        && dest_has_children;
                    match r {
                        Ok(p) => {
                            &&& !stale
                            &&& dest is Some ==> overwrite && !full
                            &&& p.node_id == n.node_id
                            &&& p.parent_node_id == to_parent_node_id
                            &&& p.name == to_name
                            &&& p.path == to
                            &&& n.attrs.version < u64::MAX ==> p.version == n.attrs.version + 1
                            &&& p.event == EventKind::NodeRenamed
                            &&& dest is None ==> p.replaced_node_id is None
                            &&& dest is Some ==> p.replaced_node_id == Some(dest->0.node_id)
                            &&& n.attrs.kind == NodeKind::File ==> p.below is None && p.mime
                                == Some(guessed)
                            &&& n.attrs.kind == NodeKind::Dir ==> p.mime is None && p.below == Some(
                                PathRewriteView {
                                    new_prefix: to + seq!['/'],
                                    substr_from: encode_utf8(from + seq!['/']).len() as int + 1,
                                    like_pattern: from + seq!['/', '%'],
                                },
                            )
                        },
                        Err(ErrorView::VersionConflict { expected, found }) => stale && expected
                            == if_version->0 && found == n.attrs.version,
                        Err(ErrorView::AlreadyExistsAtPath { path }) => !stale && dest is Some
                            && !overwrite && path == to,
                        Err(ErrorView::DirectoryNotEmpty(id)) => !stale && overwrite && full && id
                            == dest->0.node_id,
                        Err(ErrorView::NumericConversion) => n.attrs.kind == NodeKind::Dir
                            && encode_utf8(from + seq!['/']).len() + 1 > i64::MAX,
                        Err(_) => false,
                    }
                },
            }
        }),
{
    lemma_blank_trims_to_nothing(Seq::empty());
    assert(from + seq!['/'] + seq!['%'] =~= from + seq!['/', '%']);
}

/// A change of attributes sets what was given, keeps what was not, and makes a new version.
pub proof fn lemma_set_attrs_sets_what_was_given(attrs: AttrsView, patch: AttrsPatch)
    ensures
        patch.mode matches Some(m) ==> attrs_plan(attrs, patch).mode == m,
        patch.mode is None ==> attrs_plan(attrs, patch).mode == attrs.mode,
        patch.mtime_unix_nano matches Some(t) ==> attrs_plan(attrs, patch).mtime_unix_nano == t,
        patch.mtime_unix_nano is None ==> attrs_plan(attrs, patch).mtime_unix_nano
            == attrs.mtime_unix_nano,
        attrs.version < u64::MAX ==> attrs_plan(attrs, patch).version == attrs.version + 1,
        attrs_plan(attrs, patch).event == EventKind::AttrsChanged,
{
}

/// A row that can be read is read as it stands, column by column.
pub proof fn lemma_row_is_read(row: NodeRow)
    ensures
        match row_node(row) {
            Ok(n) => {
                &&& n.node_id == row.node_id@
                &&& n.parent_node_id == opt_string(row.parent_node_id)
                &&& n.name == row.name@
                &&& n.path == row.path@
                &&& n.attrs.kind == NodeKind::File ==> row.kind@ == "file"@
                &&& n.attrs.kind == NodeKind::Dir ==> row.kind@ == "dir"@
                &&& n.attrs.size == row.size
                &&& n.attrs.mtime_unix_nano == row.mtime_ns
                &&& n.attrs.mode == row.mode
                &&& n.attrs.version == row.version
                &&& n.attrs.content_hash == row.content_hash@
                &&& n.attrs.mime == row.mime@
            },
            Err(RowError::UnknownWord { column }) => column == 4 && row.kind@ != "file"@
                && row.kind@ != "dir"@,
            Err(RowError::OutOfRange { column, value }) => {
                ||| column == 5 && value == row.size && value < 0
                ||| column == 7 && value == row.mode && !(0 <= value <= u32::MAX)
                ||| column == 8 && value == row.version && value < 0
            },
        },
{
}

/// Only a directory is listed: from the offset of the cursor on, at most 1024 rows and at least
/// one. A full page is followed by the one behind it, any other by none.
pub proof fn lemma_directory_pages(
    dir: NodeView,
    node_id: Seq<char>,
    cursor: Option<Seq<char>>,
    limit: u32,
    returned: int,
)
    ensures
        match dir_page_of(dir, node_id, cursor, limit) {
            Ok((offset, size)) => {
                &&& dir.attrs.kind == NodeKind::Dir
                &&& 1 <= limit <= 1024 ==> size == limit
                &&& limit == 0 ==> size == 1
                &&& limit > 1024 ==> size == 1024
                &&& cursor is None ==> offset == 0
                &&& cursor is Some && cursor->0.len() == 0 ==> offset == 0
                &&& cursor is Some && cursor->0.len() > 0 ==> parse_signed(
                    cursor->0,
                    i64::MAX as nat,
                ) == Some(offset)
                &&& offset >= 0
                &&& returned < size ==> next_cursor_of(offset, size, returned) is None
                &&& next_cursor_of(offset, size, size) == Some(signed_decimal(offset + size))
            },
            Err(ErrorView::NotDirectory(id)) => dir.attrs.kind == NodeKind::File && id == node_id,
            Err(ErrorView::InvalidCursor) => cursor is Some && cursor->0.len() > 0,
            Err(_) => false,
        },
{
}

/// Attributes are sent again only where their version is another than the known one.
pub proof fn lemma_attrs_that_changed(attrs: NodeAttrs, known_version: u64, r: Option<NodeAttrs>)
    requires
        call_ensures(get_attrs_if_changed, (attrs, known_version), r),
    ensures
        r is None <==> attrs.version == known_version,
        r is Some ==> r->0 == attrs,
{
}

/// A file that is put has afterwards what was put: the text that is searched, the digest and the
/// size are those of the new content, whether the file was there before or not.
pub proof fn lemma_put_is_recorded(
    target: PutTarget,
    parent: Option<NodeRecord>,
    existing: Option<ExistingFile>,
    fresh_node_id: String,
    if_version: Option<u64>,
    size: u64,
    prepared: PreparedFileIndexing,
    r: Result<PutPlan, IndexError>,
)
    requires
        call_ensures(
            put_file_with_prepared,
            (target, parent, existing, fresh_node_id, if_version, size, prepared),
            r,
        ),
        r is Ok,
    ensures
        r->Ok_0@.chunks == prepared@.chunks,
        r->Ok_0@.headline_only == prepared@.headline_only,
        r->Ok_0@.indexing_policy == prepared@.indexing_policy,
        r->Ok_0@.file.content_hash == prepared@.digest_hex,
        r->Ok_0@.file.size == size,
        existing is Some ==> r->Ok_0@.file.node_id == existing->0.node_id@ && r->Ok_0@.file.version
            == existing->0.version + 1 && r->Ok_0@.created is None,
        existing is None ==> r->Ok_0@.file.node_id == fresh_node_id@ && r->Ok_0@.file.version == 1
            && r->Ok_0@.created is Some,
{
    lemma_put_records_what_was_put(
        target@,
        opt_node(parent),
        opt_existing(existing),
        fresh_node_id@,
        guessed_mime(target@.path),
        if_version,
        size,
        prepared@,
        r->Ok_0@,
    );
}

/// A node that is created is the one that was asked for, and one that is there is given back unless
/// a new one was asked for.
pub proof fn lemma_create_is_recorded(
    parent_node_id: &str,
    name: &str,
    path: String,
    existing: Option<NodeRecord>,
    kind: NodeKind,
    mode: u32,
    exclusive: bool,
    fresh_node_id: String,
    r: Result<CreatePlan, IndexError>,
)
    requires
        call_ensures(
            create_node,
            (parent_node_id, name, path, existing, kind, mode, exclusive, fresh_node_id),
            r,
        ),
    ensures
        r is Err <==> existing is Some && exclusive,
        existing is Some && !exclusive ==> r->Ok_0@ == CreatePlanView::Existing(existing->0@),
        existing is None ==> r is Ok && r->Ok_0@ is Insert && {
            let n = r->Ok_0@->Insert_0;
            &&& n.node_id == fresh_node_id@ && n.parent_node_id == Some(parent_node_id@)
            &&& n.name == name@ && n.path == path@ && n.kind == kind && n.mode == mode
        },
{
    lemma_create_does_what_was_asked(
        parent_node_id@,
        name@,
        path@,
        opt_node(existing),
        kind,
        mode,
        exclusive,
        fresh_node_id@,
    );
}

/// Only what is there, in the version that was seen, and with nothing in it can be removed.
pub proof fn lemma_unlink_is_recorded(
    workspace_id: &str,
    path: &str,
    target: Option<NodeRecord>,
    has_children: bool,
    if_version: Option<u64>,
    r: Result<UnlinkPlan, IndexError>,
)
    requires
        call_ensures(unlink, (workspace_id, path, target, has_children, if_version), r),
    ensures
        r is Ok <==> target is Some && (if_version is None || if_version->0 == 0 || if_version->0
            == target->0@.attrs.version) && !(target->0@.attrs.kind == NodeKind::Dir
            && has_children),
        r is Ok ==> r->Ok_0@.node_id == target->0@.node_id && r->Ok_0@.event
            == EventKind::NodeDeleted,
{
    lemma_unlink_removes_target(workspace_id@, path@, opt_node(target), has_children, if_version);
}

/// Attributes that are given are set, and the others stay as they are.
pub proof fn lemma_attrs_are_recorded(attrs: &NodeAttrs, patch: AttrsPatch, r: AttrsPlan)
    requires
        call_ensures(set_attrs, (attrs, patch), r),
    ensures
        patch.mode is Some ==> r.mode == patch.mode->0,
        patch.mode is None ==> r.mode == attrs.mode,
        patch.mtime_unix_nano is Some ==> r.mtime_unix_nano == patch.mtime_unix_nano->0,
        patch.mtime_unix_nano is None ==> r.mtime_unix_nano == attrs.mtime_unix_nano,
        attrs.version < u64::MAX ==> r.version == attrs.version + 1,
{
    lemma_set_attrs_sets_what_was_given(attrs@, patch);
}

/// A change is admitted where no version was named, or the one that is there.
pub proof fn lemma_version_is_checked(
    if_version: Option<u64>,
    current: u64,
    r: Result<(), IndexError>,
)
    requires
        call_ensures(check_version, (if_version, current), r),
    ensures
        r is Ok <==> if_version is None || if_version->0 == 0 || if_version->0 == current,
        r is Err ==> r->Err_0@ == (ErrorView::VersionConflict {
            expected: if_version->0 as nat,
            found: current as nat,
        }),
{
    if if_version is Some {
        lemma_versions(if_version->0, current);
    }
}

/// What is renamed stands afterwards under the name and in the directory that were asked for.
pub proof fn lemma_rename_is_recorded(
    workspace_id: &str,
    from: &str,
    to: String,
    to_parent_node_id: &str,
    to_name: &str,
    source: Option<NodeRecord>,
    dest: Option<NodeRecord>,
    dest_has_children: bool,
    overwrite: bool,
    if_version: Option<u64>,
    guessed: String,
    r: Result<RenamePlan, IndexError>,
)
    requires
        call_ensures(
            plan_rename_with_guess,
            (
                workspace_id,
                from,
                to,
                to_parent_node_id,
                to_name,
                source,
                dest,
                dest_has_children,
                overwrite,
                if_version,
                guessed,
            ),
            r,
        ),
        r is Ok,
    ensures
        source is Some,
        r->Ok_0@.node_id == source->0@.node_id,
        r->Ok_0@.parent_node_id == to_parent_node_id@,
        r->Ok_0@.name == to_name@,
        r->Ok_0@.path == to@,
        dest is Some ==> overwrite && r->Ok_0@.replaced_node_id == Some(dest->0@.node_id),
        dest is None ==> r->Ok_0@.replaced_node_id is None,
        if_version is None || if_version->0 == 0 || if_version->0 == source->0@.attrs.version,
{
    lemma_rename_moves_source(
        workspace_id@,
        from@,
        to@,
        to_parent_node_id@,
        to_name@,
        opt_node(source),
        opt_node(dest),
        dest_has_children,
        overwrite,
        if_version,
        guessed@,
    );
}

/// A node that is read is what its row holds.
pub proof fn lemma_nodes_are_read(row: NodeRow, r: Result<NodeRecord, RowError>)
    requires
        call_ensures(map_node_row, (row,), r),
        r is Ok,
    ensures
        r->Ok_0@.node_id == row.node_id@,
        r->Ok_0@.parent_node_id == opt_string(row.parent_node_id),
        r->Ok_0@.name == row.name@,
        r->Ok_0@.path == row.path@,
        r->Ok_0@.attrs.kind == NodeKind::File <==> row.kind@ == "file"@,
        r->Ok_0@.attrs.size == row.size,
        r->Ok_0@.attrs.mtime_unix_nano == row.mtime_ns,
        r->Ok_0@.attrs.mode == row.mode,
        r->Ok_0@.attrs.version == row.version,
        r->Ok_0@.attrs.content_hash == row.content_hash@,
        r->Ok_0@.attrs.mime == row.mime@,
{
    lemma_row_is_read(row);
    reveal_strlit("file");
    reveal_strlit("dir");
    assert("file"@.len() == 4 && "dir"@.len() == 3);
}

/// A type that was known stays, and one that was not is guessed.
pub proof fn lemma_types_are_kept(prev_mime: &str, guessed: String, r: String)
    requires
        call_ensures(choose_mime, (prev_mime, guessed), r),
    ensures
        !is_blank(prev_mime@) ==> r@ == trim(prev_mime@),
        is_blank(prev_mime@) ==> r@ == guessed@,
{
    crate::text::lemma_blank_trims_to_nothing(prev_mime@);
}

} // verus!

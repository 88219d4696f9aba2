//! Requests and answers: what errors are answered with, how the values of the wire protocol map to
//! those of the index, and which requests are well formed.
use crate::index_error::{ErrorView, IndexError};
use crate::model::{
    opt_string,
    AttrsPatch,
    AttrsView,
    EventKind,
    EventRecord,
    EventView,
    HandleMode,
    NodeAttrs,
    NodeKind,
    NodeRecord,
    NodeView,
    SearchMode,
};
use crate::paths::{has_char, is_dot_name, strip_leading_slashes, strip_slashes};
use crate::status::{answers, status_of, Code, Status, StatusView};
use crate::text::{
    blank, find_char, has_prefix, holds_text, is_blank, join2, join3, lemma_blank_trims_to_nothing,
    lemma_first_index, same_text, starts_with, strip_prefix, texts, to_chars, trim, trim_text,
};
use vstd::prelude::*;

verus! {

// ---------------------------------------------------------------------------
// Errors
// ---------------------------------------------------------------------------

/// The code that an error of the index is answered with.
pub open spec fn index_code(e: ErrorView) -> Code {
    match e {
        ErrorView::WorkspaceNotFound(_) => Code::NotFound,
        ErrorView::NodeNotFound { .. } => Code::NotFound,
        ErrorView::NodeIdNotFound { .. } => Code::NotFound,
        ErrorView::ParentNotFound(_) => Code::NotFound,
        ErrorView::WorkspaceAlreadyExists(_) => Code::AlreadyExists,
        ErrorView::AlreadyExistsAtPath { .. } => Code::AlreadyExists,
        ErrorView::InvalidPath(_) => Code::InvalidArgument,
        ErrorView::InvalidCursor => Code::InvalidArgument,
        ErrorView::InvalidInput(_) => Code::InvalidArgument,
        ErrorView::InvalidHandleMode(_) => Code::InvalidArgument,
        ErrorView::NotDirectory(_) => Code::FailedPrecondition,
        ErrorView::DirectoryNotEmpty(_) => Code::FailedPrecondition,
        ErrorView::VersionConflict { .. } => Code::FailedPrecondition,
        ErrorView::ConnectionPoolExhausted => Code::ResourceExhausted,
        _ => Code::Internal,
    }
}

/// The answer to a request that failed in the index.
pub fn index_status(err: &IndexError) -> (r: Status)
    ensures
        r@ == status_of(index_code(err@), err@.message()),
{
    let code = match err {
        IndexError::WorkspaceNotFound(_) => Code::NotFound,
        IndexError::NodeNotFound { .. } => Code::NotFound,
        IndexError::NodeIdNotFound { .. } => Code::NotFound,
        IndexError::ParentNotFound(_) => Code::NotFound,
        IndexError::WorkspaceAlreadyExists(_) => Code::AlreadyExists,
        IndexError::AlreadyExistsAtPath { .. } => Code::AlreadyExists,
        IndexError::InvalidPath(_) => Code::InvalidArgument,
        IndexError::InvalidCursor => Code::InvalidArgument,
        IndexError::InvalidInput(_) => Code::InvalidArgument,
        IndexError::InvalidHandleMode(_) => Code::InvalidArgument,
        IndexError::NotDirectory(_) => Code::FailedPrecondition,
        IndexError::DirectoryNotEmpty(_) => Code::FailedPrecondition,
        IndexError::VersionConflict { .. } => Code::FailedPrecondition,
        IndexError::ConnectionPoolExhausted => Code::ResourceExhausted,
        IndexError::InvalidIndexingJobStatus(_) => Code::Internal,
        IndexError::ContentNotInIndex => Code::Internal,
        IndexError::InvalidNodeKind(_) => Code::Internal,
        IndexError::NumericConversion => Code::Internal,
        IndexError::EmbeddingCountMismatch { .. } => Code::Internal,
        IndexError::RedirectLimitExceeded { .. } => Code::Internal,
        IndexError::RedirectLoop { .. } => Code::Internal,
        IndexError::Sqlite(_) => Code::Internal,
        IndexError::ConnectionPoolPoisoned(_) => Code::Internal,
    };
    Status { code, message: err.message() }
}

/// The answer to a request that failed for a reason that is none of the caller's.
pub fn internal_status(message: &str) -> (r: Status)
    ensures
        r@ == status_of(Code::Internal, message@),
{
    Status::new(Code::Internal, message)
}

// ---------------------------------------------------------------------------
// Values of the wire protocol
// ---------------------------------------------------------------------------

#[derive(Debug, Clone, Copy, PartialEq, Eq, Structural)]
pub enum ProtoNodeKind {
    Unspecified,
    File,
    Dir,
}

/// A kind of event on the wire; a number that no kind has counts as unspecified.
#[derive(Debug, Clone, Copy, PartialEq, Eq, Structural)]
pub enum ProtoEventKind {
    Unspecified,
    NodeCreated,
    NodeModified,
    NodeDeleted,
    NodeRenamed,
    AttrsChanged,
    IndexUpdated,
}

#[derive(Debug, Clone, Copy, PartialEq, Eq, Structural)]
pub enum ProtoSearchMode {
    Unspecified,
    Fts,
    Vector,
    Hybrid,
}

#[derive(Debug, Clone, Copy, PartialEq, Eq, Structural)]
pub enum ProtoHandleMode {
    Unspecified,
    Read,
    Write,
    ReadWrite,
}

/// Attributes as they are sent.
#[derive(Debug, Clone, PartialEq, Eq)]
pub struct ProtoAttrs {
    pub kind: ProtoNodeKind,
    pub size: u64,
    pub mtime_unix_nano: i64,
    pub mode: u32,
    pub version: u64,
    pub content_hash: String,
    pub mime: String,
}

impl ProtoAttrs {
    /// The attributes that are sent are those of the node.
    pub open spec fn is_of(self, a: AttrsView) -> bool {
        &&& self.kind == proto_node_kind(a.kind)
        &&& self.size == a.size
        &&& self.mtime_unix_nano == a.mtime_unix_nano
        &&& self.mode == a.mode
        &&& self.version == a.version
        &&& self.content_hash@ == a.content_hash
        &&& self.mime@ == a.mime
    }
}

pub open spec fn proto_node_kind(kind: NodeKind) -> ProtoNodeKind {
    match kind {
        NodeKind::File => ProtoNodeKind::File,
        NodeKind::Dir => ProtoNodeKind::Dir,
    }
}

pub fn to_proto_attrs(attrs: &NodeAttrs) -> (r: ProtoAttrs)
    ensures
        r.is_of(attrs@),
{
    ProtoAttrs {
        kind: match attrs.kind {
            NodeKind::File => ProtoNodeKind::File,
            NodeKind::Dir => ProtoNodeKind::Dir,
        },
        size: attrs.size,
        mtime_unix_nano: attrs.mtime_unix_nano,
        mode: attrs.mode,
        version: attrs.version,
        content_hash: attrs.content_hash.clone(),
        mime: attrs.mime.clone(),
    }
}

/// An entry of a directory as it is sent.
#[derive(Debug, Clone, PartialEq, Eq)]
pub struct DirEntry {
    pub name: String,
    pub node_id: String,
    pub attrs: ProtoAttrs,
}

pub fn to_dir_entry(node: NodeRecord) -> (r: DirEntry)
    ensures
        r.name@ == node@.name,
        r.node_id@ == node@.node_id,
        r.attrs.is_of(node@.attrs),
{
    let attrs = to_proto_attrs(&node.attrs);
    DirEntry { name: node.name, node_id: node.node_id, attrs }
}

pub fn from_proto_kind(kind: ProtoNodeKind) -> (r: Result<NodeKind, &'static str>)
    ensures
        match r {
            Ok(k) => kind == proto_node_kind(k),
            Err(m) => kind == ProtoNodeKind::Unspecified && m@ == "node kind must be file or dir"@,
        },
{
    match kind {
        ProtoNodeKind::File => Ok(NodeKind::File),
        ProtoNodeKind::Dir => Ok(NodeKind::Dir),
        ProtoNodeKind::Unspecified => Err("node kind must be file or dir"),
    }
}

pub open spec fn proto_event_kind(kind: EventKind) -> ProtoEventKind {
    match kind {
        EventKind::NodeCreated => ProtoEventKind::NodeCreated,
        EventKind::NodeModified => ProtoEventKind::NodeModified,
        EventKind::NodeDeleted => ProtoEventKind::NodeDeleted,
        EventKind::NodeRenamed => ProtoEventKind::NodeRenamed,
        EventKind::AttrsChanged => ProtoEventKind::AttrsChanged,
        EventKind::IndexUpdated => ProtoEventKind::IndexUpdated,
    }
}

pub fn to_proto_event_kind(kind: EventKind) -> (r: ProtoEventKind)
    ensures
        r == proto_event_kind(kind),
{
    match kind {
        EventKind::NodeCreated => ProtoEventKind::NodeCreated,
        EventKind::NodeModified => ProtoEventKind::NodeModified,
        EventKind::NodeDeleted => ProtoEventKind::NodeDeleted,
        EventKind::NodeRenamed => ProtoEventKind::NodeRenamed,
        EventKind::AttrsChanged => ProtoEventKind::AttrsChanged,
        EventKind::IndexUpdated => ProtoEventKind::IndexUpdated,
    }
}

/// An unspecified mode searches the text.
pub fn to_index_search_mode(mode: ProtoSearchMode) -> (r: SearchMode)
    ensures
        r == match mode {
            ProtoSearchMode::Vector => SearchMode::Vector,
            ProtoSearchMode::Hybrid => SearchMode::Hybrid,
            _ => SearchMode::Fts,
        },
{
    match mode {
        ProtoSearchMode::Unspecified => SearchMode::Fts,
        ProtoSearchMode::Fts => SearchMode::Fts,
        ProtoSearchMode::Vector => SearchMode::Vector,
        ProtoSearchMode::Hybrid => SearchMode::Hybrid,
    }
}

/// An unspecified mode reads.
pub fn to_index_handle_mode(mode: ProtoHandleMode) -> (r: HandleMode)
    ensures
        r == match mode {
            ProtoHandleMode::Write => HandleMode::Write,
            ProtoHandleMode::ReadWrite => HandleMode::ReadWrite,
            _ => HandleMode::Read,
        },
{
    match mode {
        ProtoHandleMode::Unspecified => HandleMode::Read,
        ProtoHandleMode::Read => HandleMode::Read,
        ProtoHandleMode::Write => HandleMode::Write,
        ProtoHandleMode::ReadWrite => HandleMode::ReadWrite,
    }
}

/// An expected version of 0 expects nothing.
pub fn expected_version(if_version: u64) -> (r: Option<u64>)
    ensures
        r == (if if_version == 0 {
            None
        } else {
            Some(if_version)
        }),
{
    if if_version == 0 {
        None
    } else {
        Some(if_version)
    }
}

/// A patch on the wire tells for each attribute whether it is set.
pub fn attrs_patch(has_mode: bool, mode: u32, has_mtime: bool, mtime_unix_nano: i64) -> (r:
    AttrsPatch)
    ensures
        r.mode == (if has_mode {
            Some(mode)
        } else {
            None
        }),
        r.mtime_unix_nano == (if has_mtime {
            Some(mtime_unix_nano)
        } else {
            None
        }),
{
    AttrsPatch {
        mode: if has_mode {
            Some(mode)
        } else {
            None
        },
        mtime_unix_nano: if has_mtime {
            Some(mtime_unix_nano)
        } else {
            None
        },
    }
}

/// The permissions of a node that is created without any.
pub open spec fn create_mode_of(kind: NodeKind, mode: u32) -> u32 {
    if mode != 0 {
        mode
    } else {
        match kind {
            NodeKind::File => 0o644,
            NodeKind::Dir => 0o755,
        }
    }
}

pub fn create_mode(kind: NodeKind, mode: u32) -> (r: u32)
    ensures
        r == create_mode_of(kind, mode),
{
    if mode == 0 {
        match kind {
            NodeKind::File => 0o644,
            NodeKind::Dir => 0o755,
        }
    } else {
        mode
    }
}

// ---------------------------------------------------------------------------
// Which requests are well formed
// ---------------------------------------------------------------------------

/// A field that has to be given.
pub open spec fn field_required(value: Seq<char>, message: Seq<char>) -> Result<(), StatusView> {
    if trim(value).len() == 0 {
        Err(status_of(Code::InvalidArgument, message))
    } else {
        Ok(())
    }
}

fn is_given(value: &str) -> (r: bool)
    ensures
        r == (trim(value@).len() > 0),
{
    proof {
        lemma_blank_trims_to_nothing(value@);
    }
    !blank(value)
}

/// A request has to give a field; `message` says which.
pub fn require_field(value: &str, message: &str) -> (r: Result<(), Status>)
    ensures
        match r {
            Ok(_) => field_required(value@, message@) is Ok,
            Err(e) => field_required(value@, message@) == Err::<(), StatusView>(e@),
        },
{
    if is_given(value) {
        Ok(())
    } else {
        Err(Status::new(Code::InvalidArgument, message))
    }
}

/// A request that names a child of a directory gives the directory and the name.
pub open spec fn child_request(parent_node_id: Seq<char>, name: Seq<char>) -> Result<(), StatusView> {
    if trim(parent_node_id).len() == 0 {
        Err(status_of(Code::InvalidArgument, "parent_node_id cannot be empty"@))
    } else if trim(name).len() == 0 {
        Err(status_of(Code::InvalidArgument, "name cannot be empty"@))
    } else {
        Ok(())
    }
}

pub fn check_child_request(parent_node_id: &str, name: &str) -> (r: Result<(), Status>)
    ensures
        match r {
            Ok(_) => child_request(parent_node_id@, name@) is Ok,
            Err(e) => child_request(parent_node_id@, name@) == Err::<(), StatusView>(e@),
        },
{
    if !is_given(parent_node_id) {
        return Err(Status::new(Code::InvalidArgument, "parent_node_id cannot be empty"));
    }
    if !is_given(name) {
        return Err(Status::new(Code::InvalidArgument, "name cannot be empty"));
    }
    Ok(())
}

pub open spec fn rename_request(
    from_parent_node_id: Seq<char>,
    from_name: Seq<char>,
    to_parent_node_id: Seq<char>,
    to_name: Seq<char>,
) -> Result<(), StatusView> {
    if trim(from_parent_node_id).len() == 0 || trim(to_parent_node_id).len() == 0 {
        Err(status_of(Code::InvalidArgument, "parent_node_id cannot be empty"@))
    } else if trim(from_name).len() == 0 || trim(to_name).len() == 0 {
        Err(status_of(Code::InvalidArgument, "name cannot be empty"@))
    } else {
        Ok(())
    }
}

pub fn check_rename_request(
    from_parent_node_id: &str,
    from_name: &str,
    to_parent_node_id: &str,
    to_name: &str,
) -> (r: Result<(), Status>)
    ensures
        match r {
            Ok(_) => rename_request(
                from_parent_node_id@,
                from_name@,
                to_parent_node_id@,
                to_name@,
            ) is Ok,
            Err(e) => rename_request(
                from_parent_node_id@,
                from_name@,
                to_parent_node_id@,
                to_name@,
            ) == Err::<(), StatusView>(e@),
        },
{
    if !is_given(from_parent_node_id) || !is_given(to_parent_node_id) {
        return Err(Status::new(Code::InvalidArgument, "parent_node_id cannot be empty"));
    }
    if !is_given(from_name) || !is_given(to_name) {
        return Err(Status::new(Code::InvalidArgument, "name cannot be empty"));
    }
    Ok(())
}

// ---------------------------------------------------------------------------
// Where a file is put
// ---------------------------------------------------------------------------

/// The target of a put: a node, a child of a directory, or, in the old form, a path.
#[derive(Debug, Clone, PartialEq, Eq)]
pub enum PutRequest {
    NodeId(String),
    Child { parent_node_id: String, name: String },
    Path(String),
}

#[verifier::ext_equal]
pub enum PutRequestView {
    NodeId(Seq<char>),
    Child { parent_node_id: Seq<char>, name: Seq<char> },
    Path(Seq<char>),
}

impl View for PutRequest {
    type V = PutRequestView;

    open spec fn view(&self) -> PutRequestView {
        match *self {
            PutRequest::NodeId(n) => PutRequestView::NodeId(n@),
            PutRequest::Child { parent_node_id, name } => PutRequestView::Child {
                parent_node_id: parent_node_id@,
                name: name@,
            },
            PutRequest::Path(p) => PutRequestView::Path(p@),
        }
    }
}

/// The target with its parts trimmed. None of them may be blank.
pub open spec fn put_request_of(target: PutRequestView) -> Result<PutRequestView, StatusView> {
    match target {
        PutRequestView::NodeId(n) => match field_required(n, "node_id cannot be empty"@) {
            Ok(_) => Ok(PutRequestView::NodeId(trim(n))),
            Err(e) => Err(e),
        },
        PutRequestView::Child { parent_node_id, name } => match child_request(
            parent_node_id,
            name,
        ) {
            Ok(_) => Ok(
                PutRequestView::Child { parent_node_id: trim(parent_node_id), name: trim(name) },
            ),
            Err(e) => Err(e),
        },
        PutRequestView::Path(p) => match field_required(
            p,
            "put target is required (target oneof or deprecated path)"@,
        ) {
            Ok(_) => Ok(PutRequestView::Path(trim(p))),
            Err(e) => Err(e),
        },
    }
}

/// Checks the target of a put. A node is then to be resolved and a directory to be looked up; a
/// path is the answer.
pub fn check_put_request(target: &PutRequest) -> (r: Result<PutRequest, Status>)
    ensures
        answers(r, put_request_of(target@)),
{
    match target {
        PutRequest::NodeId(n) => match require_field(n.as_str(), "node_id cannot be empty") {
            Ok(_) => Ok(PutRequest::NodeId(trim_text(n.as_str()))),
            Err(e) => Err(e),
        },
        PutRequest::Child { parent_node_id, name } => match check_child_request(
            parent_node_id.as_str(),
            name.as_str(),
        ) {
            Ok(_) => Ok(
                PutRequest::Child {
                    parent_node_id: trim_text(parent_node_id.as_str()),
                    name: trim_text(name.as_str()),
                },
            ),
            Err(e) => Err(e),
        },
        PutRequest::Path(p) => match require_field(
            p.as_str(),
            "put target is required (target oneof or deprecated path)",
        ) {
            Ok(_) => Ok(PutRequest::Path(trim_text(p.as_str()))),
            Err(e) => Err(e),
        },
    }
}

/// The path that a put to a node goes to: where the node is, or has moved to.
pub fn put_path_of_node(resolved: Option<String>) -> (r: Result<String, Status>)
    ensures
        answers(
            r,
            match opt_string(resolved) {
                Some(p) => Ok(p),
                None => Err(status_of(Code::NotFound, "node_id not found"@)),
            },
        ),
{
    match resolved {
        Some(p) => Ok(p),
        None => Err(Status::new(Code::NotFound, "node_id not found")),
    }
}

/// The path that a put to a child of a directory goes to.
pub open spec fn put_path_in(parent: NodeView, name: Seq<char>) -> Result<Seq<char>, StatusView> {
    if parent.attrs.kind != NodeKind::Dir {
        Err(
            status_of(
                Code::FailedPrecondition,
                "parent_node_id does not reference a directory"@,
            ),
        )
    } else if has_char(name, '/') || is_dot_name(name) {
        Err(status_of(Code::InvalidArgument, "invalid target file name"@))
    } else if parent.path.len() == 0 {
        Ok(name)
    } else {
        Ok(parent.path + "/"@ + name)
    }
}

pub fn put_path_in_directory(parent: &NodeRecord, name: &str) -> (r: Result<String, Status>)
    ensures
        answers(r, put_path_in(parent@, name@)),
{
    if parent.attrs.kind != NodeKind::Dir {
        return Err(
            Status::new(
                Code::FailedPrecondition,
                "parent_node_id does not reference a directory",
            ),
        );
    }
    proof {
        lemma_first_index(name@, '/');
        reveal_strlit(".");
        reveal_strlit("..");
        assert("."@ =~= seq!['.']);
        assert(".."@ =~= seq!['.', '.']);
    }
    let v = to_chars(name);
    let k = find_char(&v, '/');
    proof {
        if k < name@.len() {
            assert(name@[k as int] == '/');
        }
    }
    if k < v.len() || same_text(name, ".") || same_text(name, "..") {
        return Err(Status::new(Code::InvalidArgument, "invalid target file name"));
    }
    if parent.path.as_str().is_empty() {
        Ok(name.to_owned())
    } else {
        Ok(join3(parent.path.as_str(), "/", name))
    }
}

/// Only a file can be read as one.
pub fn check_file_node(node: &NodeRecord) -> (r: Result<(), Status>)
    ensures
        match r {
            Ok(_) => node@.attrs.kind == NodeKind::File,
            Err(e) => node@.attrs.kind == NodeKind::Dir && e@ == status_of(
                Code::FailedPrecondition,
                "path must reference a file node"@,
            ),
        },
{
    match node.attrs.kind {
        NodeKind::File => Ok(()),
        NodeKind::Dir => Err(
            Status::new(Code::FailedPrecondition, "path must reference a file node"),
        ),
    }
}

// ---------------------------------------------------------------------------
// Search
// ---------------------------------------------------------------------------

/// The text with every quotation mark doubled.
pub open spec fn quotes_doubled(s: Seq<char>) -> Seq<char>
    decreases s.len(),
{
    if s.len() == 0 {
        Seq::empty()
    } else if s.last() == '"' {
        quotes_doubled(s.drop_last()).push('"').push('"')
    } else {
        quotes_doubled(s.drop_last()).push(s.last())
    }
}

/// The expression that a search is made with: behind `raw:` as it stands, else the whole query as
/// one quoted phrase, so that no character of it is taken for an operator.
pub open spec fn fts_query(raw: Seq<char>) -> Seq<char> {
    let t = trim(raw);
    if has_prefix(t, "raw:"@) && trim(t.skip("raw:"@.len() as int)).len() > 0 {
        trim(t.skip("raw:"@.len() as int))
    } else {
        "\""@ + quotes_doubled(t) + "\""@
    }
}

pub fn normalize_fts_query(raw: &str) -> (r: String)
    ensures
        r@ == fts_query(raw@),
{
    let trimmed = trim_text(raw);
    match strip_prefix(trimmed.as_str(), "raw:") {
        Some(expr) => {
            let passthrough = trim_text(expr.as_str());
            if !passthrough.as_str().is_empty() {
                return passthrough;
            }
        },
        None => {},
    }
    let v = to_chars(trimmed.as_str());
    let mut inner = String::new();
    let mut i: usize = 0;
    proof {
        assert(v@.take(0) =~= Seq::empty());
    }
    while i < v.len()
        invariant
            i <= v@.len(),
            inner@ == quotes_doubled(v@.take(i as int)),
        decreases v@.len() - i,
    {
        let c = v[i];
        proof {
            assert(v@.take(i + 1).drop_last() =~= v@.take(i as int));
        }
        if c == '"' {
            inner.push('"');
        }
        inner.push(c);
        i += 1;
    }
    proof {
        assert(v@.take(v@.len() as int) =~= v@);
    }
    join3("\"", inner.as_str(), "\"")
}

/// The text with every pair of quotation marks made one.
pub open spec fn quotes_halved(s: Seq<char>) -> Seq<char>
    decreases s.len(),
{
    if s.len() == 0 {
        Seq::empty()
    } else if s.len() >= 2 && s.last() == '"' && s[s.len() - 2] == '"' {
        quotes_halved(s.drop_last().drop_last()).push('"')
    } else {
        quotes_halved(s.drop_last()).push(s.last())
    }
}

/// Nothing of a query is lost in quoting it: halving the marks gives it back.
pub proof fn lemma_quoting_keeps_query(s: Seq<char>)
    ensures
        quotes_halved(quotes_doubled(s)) == s,
    decreases s.len(),
{
    if s.len() > 0 {
        let t = s.drop_last();
        lemma_quoting_keeps_query(t);
        let q = quotes_doubled(t);
        if s.last() == '"' {
            let d = q.push('"').push('"');
            assert(d.drop_last().drop_last() =~= q);
            assert(t.push('"') =~= s);
        } else {
            let d = q.push(s.last());
            assert(d.drop_last() =~= q);
            assert(t.push(s.last()) =~= s);
        }
    } else {
        assert(s =~= Seq::empty());
    }
}

// ---------------------------------------------------------------------------
// Which events a subscriber sees
// ---------------------------------------------------------------------------

/// What a subscriber asks for. An empty list asks for everything.
#[derive(Debug, Clone, PartialEq, Eq)]
pub struct SubscribeFilter {
    pub path_prefix: Vec<String>,
    pub node_ids: Vec<String>,
    pub kinds: Vec<ProtoEventKind>,
    pub include_index_events: bool,
}

#[verifier::ext_equal]
pub struct FilterView {
    pub path_prefix: Seq<Seq<char>>,
    pub node_ids: Seq<Seq<char>>,
    pub kinds: Seq<ProtoEventKind>,
    pub include_index_events: bool,
}

impl View for SubscribeFilter {
    type V = FilterView;

    open spec fn view(&self) -> FilterView {
        FilterView {
            path_prefix: texts(self.path_prefix@),
            node_ids: texts(self.node_ids@),
            kinds: self.kinds@,
            include_index_events: self.include_index_events,
        }
    }
}

impl FilterView {
    /// The prefixes without leading slashes, and without those that are then empty; the ids without
    /// the blank ones.
    pub open spec fn normalized(self) -> FilterView {
        FilterView {
            path_prefix: self.path_prefix.map_values(|p: Seq<char>| strip_slashes(p)).filter(
                |p: Seq<char>| p.len() > 0,
            ),
            node_ids: self.node_ids.filter(|n: Seq<char>| !is_blank(n)),
            ..self
        }
    }

    /// The event is at one of the paths or below it.
    pub open spec fn covers_path(self, path: Seq<char>) -> bool {
        exists|i: int|
            0 <= i < self.path_prefix.len() && (path == #[trigger] self.path_prefix[i]
                || has_prefix(path, self.path_prefix[i] + "/"@))
    }

    /// The subscriber is to see the event.
    pub open spec fn admits(self, event: EventView) -> bool {
        &&& self.include_index_events || event.kind != EventKind::IndexUpdated
        &&& self.kinds.len() == 0 || self.kinds.contains(proto_event_kind(event.kind))
        &&& self.node_ids.len() == 0 || self.node_ids.contains(event.node_id)
        &&& self.path_prefix.len() == 0 || self.covers_path(event.path)
    }
}

pub fn normalize_subscribe_filter(filter: &SubscribeFilter) -> (r: SubscribeFilter)
    ensures
        r@ == filter@.normalized(),
{
    let mut path_prefix: Vec<String> = Vec::new();
    let ghost strip = |p: Seq<char>| strip_slashes(p);
    let ghost keep = |p: Seq<char>| p.len() > 0;
    let ghost stripped = filter@.path_prefix.map_values(strip);
    let mut i: usize = 0;
    proof {
        assert(stripped.take(0) =~= Seq::empty());
        reveal(Seq::filter);
        assert(texts(path_prefix@) =~= stripped.take(0).filter(keep));
    }
    while i < filter.path_prefix.len()
        invariant
            i <= filter.path_prefix@.len(),
            strip == (|p: Seq<char>| strip_slashes(p)),
            keep == (|p: Seq<char>| p.len() > 0),
            stripped == filter@.path_prefix.map_values(strip),
            texts(path_prefix@) == stripped.take(i as int).filter(keep),
        decreases filter.path_prefix@.len() - i,
    {
        let p = strip_leading_slashes(filter.path_prefix[i].as_str());
        let ghost before = texts(path_prefix@);
        proof {
            reveal(Seq::filter);
            assert(stripped.take(i + 1).drop_last() =~= stripped.take(i as int));
            assert(stripped[i as int] == p@);
        }
        let ghost pv = p@;
        if !p.as_str().is_empty() {
            path_prefix.push(p);
            proof {
                assert(texts(path_prefix@) =~= before.push(pv));
            }
        }
        i += 1;
    }
    let mut node_ids: Vec<String> = Vec::new();
    let ghost ids = filter@.node_ids;
    let ghost keep_id = |n: Seq<char>| !is_blank(n);
    i = 0;
    proof {
        assert(stripped.take(stripped.len() as int) =~= stripped);
        assert(ids.take(0) =~= Seq::empty());
        assert(texts(node_ids@) =~= ids.take(0).filter(keep_id)) by {
            reveal(Seq::filter);
        }
    }
    while i < filter.node_ids.len()
        invariant
            i <= filter.node_ids@.len(),
            keep_id == (|n: Seq<char>| !is_blank(n)),
            ids == filter@.node_ids,
            texts(node_ids@) == ids.take(i as int).filter(keep_id),
        decreases filter.node_ids@.len() - i,
    {
        let ghost before = texts(node_ids@);
        proof {
            reveal(Seq::filter);
            assert(ids.take(i + 1).drop_last() =~= ids.take(i as int));
            assert(ids[i as int] == filter.node_ids@[i as int]@);
        }
        if !blank(filter.node_ids[i].as_str()) {
            let n = filter.node_ids[i].clone();
            let ghost nv = n@;
            node_ids.push(n);
            proof {
                assert(texts(node_ids@) =~= before.push(nv));
            }
        }
        i += 1;
    }
    proof {
        assert(ids.take(ids.len() as int) =~= ids);
    }
    let kinds = copy_kinds(&filter.kinds);
    SubscribeFilter {
        path_prefix,
        node_ids,
        kinds,
        include_index_events: filter.include_index_events,
    }
}

fn copy_kinds(kinds: &Vec<ProtoEventKind>) -> (r: Vec<ProtoEventKind>)
    ensures
        r@ == kinds@,
{
    let mut r: Vec<ProtoEventKind> = Vec::new();
    let mut i: usize = 0;
    while i < kinds.len()
        invariant
            i <= kinds@.len(),
            r@ == kinds@.take(i as int),
        decreases kinds@.len() - i,
    {
        r.push(kinds[i]);
        proof {
            assert(r@ =~= kinds@.take(i + 1));
        }
        i += 1;
    }
    proof {
        assert(kinds@.take(kinds@.len() as int) =~= kinds@);
    }
    r
}

fn holds_kind(kinds: &Vec<ProtoEventKind>, kind: ProtoEventKind) -> (r: bool)
    ensures
        r == kinds@.contains(kind),
{
    let mut i: usize = 0;
    while i < kinds.len()
        invariant
            i <= kinds@.len(),
            forall|k: int| 0 <= k < i ==> kinds@[k] != kind,
        decreases kinds@.len() - i,
    {
        if kinds[i] == kind {
            return true;
        }
        i += 1;
    }
    false
}

fn covers(filter: &SubscribeFilter, path: &str) -> (r: bool)
    ensures
        r == filter@.covers_path(path@),
{
    let mut i: usize = 0;
    while i < filter.path_prefix.len()
        invariant
            i <= filter.path_prefix@.len(),
            forall|k: int|
                0 <= k < i ==> !(path@ == #[trigger] filter@.path_prefix[k] || has_prefix(
                    path@,
                    filter@.path_prefix[k] + "/"@,
                )),
        decreases filter.path_prefix@.len() - i,
    {
        let p = filter.path_prefix[i].as_str();
        proof {
            assert(filter@.path_prefix[i as int] == p@);
        }
        if same_text(path, p) {
            return true;
        }
        let below = join2(p, "/");
        if starts_with(path, below.as_str()) {
            return true;
        }
        i += 1;
    }
    false
}

/// Whether a subscriber with this filter is to see the event.
pub fn should_emit_event(event: &EventRecord, filter: &SubscribeFilter) -> (r: bool)
    ensures
        r == filter@.admits(event@),
{
    if !filter.include_index_events && event.kind == EventKind::IndexUpdated {
        return false;
    }
    if filter.kinds.len() > 0 && !holds_kind(&filter.kinds, to_proto_event_kind(event.kind)) {
        return false;
    }
    if filter.node_ids.len() > 0 && !holds_text(&filter.node_ids, event.node_id.as_str()) {
        return false;
    }
    if filter.path_prefix.len() > 0 && !covers(filter, event.path.as_str()) {
        return false;
    }
    true
}

/// A filter that asks for nothing in particular admits every event but those of the indexer.
pub proof fn lemma_empty_filter_admits(filter: FilterView, event: EventView)
    requires
        filter.path_prefix.len() == 0,
        filter.node_ids.len() == 0,
        filter.kinds.len() == 0,
    ensures
        filter.admits(event) <==> filter.include_index_events || event.kind
            != EventKind::IndexUpdated,
{
}

// ---------------------------------------------------------------------------
// Laws
// ---------------------------------------------------------------------------

/// What is not there is answered with `NotFound`, what is there already with `AlreadyExists`, what
/// is malformed with `InvalidArgument`, what is refused as things stand with `FailedPrecondition`,
/// and everything else with `Internal`, but for a pool that is used up.
pub proof fn lemma_error_codes(e: ErrorView)
    ensures
        index_code(e) == Code::NotFound <==> e is WorkspaceNotFound || e is NodeNotFound
            || e is NodeIdNotFound || e is ParentNotFound,
        index_code(e) == Code::AlreadyExists <==> e is WorkspaceAlreadyExists
            || e is AlreadyExistsAtPath,
        index_code(e) == Code::InvalidArgument <==> e is InvalidPath || e is InvalidCursor
            || e is InvalidInput || e is InvalidHandleMode,
        index_code(e) == Code::FailedPrecondition <==> e is NotDirectory || e is DirectoryNotEmpty
            || e is VersionConflict,
        index_code(e) == Code::ResourceExhausted <==> e is ConnectionPoolExhausted,
        index_code(e) == Code::Internal || index_code(e) == Code::NotFound || index_code(e)
            == Code::AlreadyExists || index_code(e) == Code::InvalidArgument || index_code(e)
            == Code::FailedPrecondition || index_code(e) == Code::ResourceExhausted,
{
}

/// A kind of event on the wire is that of the index.
pub open spec fn same_event_kind(wire: ProtoEventKind, kind: EventKind) -> bool {
    match (wire, kind) {
        (ProtoEventKind::NodeCreated, EventKind::NodeCreated) => true,
        (ProtoEventKind::NodeModified, EventKind::NodeModified) => true,
        (ProtoEventKind::NodeDeleted, EventKind::NodeDeleted) => true,
        (ProtoEventKind::NodeRenamed, EventKind::NodeRenamed) => true,
        (ProtoEventKind::AttrsChanged, EventKind::AttrsChanged) => true,
        (ProtoEventKind::IndexUpdated, EventKind::IndexUpdated) => true,
        (_, _) => false,
    }
}

/// Kinds keep their names on the wire.
pub proof fn lemma_kinds_on_the_wire(event: EventKind, wire: ProtoEventKind)
    ensures
        same_event_kind(wire, event) <==> wire == proto_event_kind(event),
        proto_node_kind(NodeKind::File) == ProtoNodeKind::File,
        proto_node_kind(NodeKind::Dir) == ProtoNodeKind::Dir,
{
}

/// Attributes are sent as they are.
pub proof fn lemma_attrs_are_sent(p: ProtoAttrs, a: AttrsView)
    requires
        p.is_of(a),
    ensures
        p.kind == ProtoNodeKind::File <==> a.kind == NodeKind::File,
        p.kind == ProtoNodeKind::Dir <==> a.kind == NodeKind::Dir,
        p.size == a.size,
        p.mtime_unix_nano == a.mtime_unix_nano,
        p.mode == a.mode,
        p.version == a.version,
        p.content_hash@ == a.content_hash,
        p.mime@ == a.mime,
{
}

/// A node is created with the permissions that were asked for; without any, a file can be written
/// by its owner and read by all, and a directory can be entered by all too.
pub proof fn lemma_created_permissions(kind: NodeKind, mode: u32)
    ensures
        mode != 0 ==> create_mode_of(kind, mode) == mode,
        create_mode_of(NodeKind::File, 0) == 0o644,
        create_mode_of(NodeKind::Dir, 0) == 0o755,
{
}

/// A field is given where it is not blank; a request names the first field that is missing.
pub proof fn lemma_fields_have_to_be_given(
    a: Seq<char>,
    b: Seq<char>,
    c: Seq<char>,
    d: Seq<char>,
    message: Seq<char>,
)
    ensures
        !is_blank(a) ==> field_required(a, message) is Ok,
        is_blank(a) ==> field_required(a, message) == Err::<(), StatusView>(
            StatusView { code: Code::InvalidArgument, message },
        ),
        !is_blank(a) && !is_blank(b) <==> child_request(a, b) is Ok,
        is_blank(a) ==> child_request(a, b) == Err::<(), StatusView>(
            StatusView {
                code: Code::InvalidArgument,
                message: "parent_node_id cannot be empty"@,
            },
        ),
        !is_blank(a) && is_blank(b) ==> child_request(a, b) == Err::<(), StatusView>(
            StatusView { code: Code::InvalidArgument, message: "name cannot be empty"@ },
        ),
        !is_blank(a) && !is_blank(b) && !is_blank(c) && !is_blank(d) <==> rename_request(
            a,
            b,
            c,
            d,
        ) is Ok,
        is_blank(a) || is_blank(c) ==> rename_request(a, b, c, d) == Err::<(), StatusView>(
            StatusView {
                code: Code::InvalidArgument,
                message: "parent_node_id cannot be empty"@,
            },
        ),
        !is_blank(a) && !is_blank(c) && (is_blank(b) || is_blank(d)) ==> rename_request(a, b, c, d)
            == Err::<(), StatusView>(
            StatusView { code: Code::InvalidArgument, message: "name cannot be empty"@ },
        ),
{
    lemma_blank_trims_to_nothing(a);
    lemma_blank_trims_to_nothing(b);
    lemma_blank_trims_to_nothing(c);
    lemma_blank_trims_to_nothing(d);
}

/// A put goes to what was named, without the white space around it, and to no other kind of
/// target; where a part of the name is blank it is refused.
pub proof fn lemma_put_goes_to_its_target(target: PutRequestView)
    ensures
        match (target, put_request_of(target)) {
            (PutRequestView::NodeId(n), Ok(PutRequestView::NodeId(m))) => !is_blank(n) && m == trim(
                n,
            ),
            (
                PutRequestView::Child { parent_node_id: p, name: n },
                Ok(PutRequestView::Child { parent_node_id: q, name: m }),
            ) => !is_blank(p) && !is_blank(n) && q == trim(p) && m == trim(n),
            (PutRequestView::Path(p), Ok(PutRequestView::Path(q))) => !is_blank(p) && q == trim(p),
            (PutRequestView::NodeId(n), Err(e)) => is_blank(n) && e.code == Code::InvalidArgument
                && e.message == "node_id cannot be empty"@,
            (PutRequestView::Child { parent_node_id: p, name: n }, Err(e)) => (is_blank(p)
                || is_blank(n)) && e.code == Code::InvalidArgument,
            (PutRequestView::Path(p), Err(e)) => is_blank(p) && e.code == Code::InvalidArgument,
            (_, _) => false,
        },
{
    match target {
        PutRequestView::NodeId(n) => {
            lemma_blank_trims_to_nothing(n);
        },
        PutRequestView::Child { parent_node_id, name } => {
            lemma_blank_trims_to_nothing(parent_node_id);
            lemma_blank_trims_to_nothing(name);
        },
        PutRequestView::Path(p) => {
            lemma_blank_trims_to_nothing(p);
        },
    }
}

/// A put to a child of a directory goes to the directory's path and the name; what is no directory
/// has no children, and a name with a slash, or `.` or `..`, is none.
pub proof fn lemma_put_goes_into_directory(parent: NodeView, name: Seq<char>)
    ensures
        match put_path_in(parent, name) {
            Ok(p) => {
                &&& parent.attrs.kind == NodeKind::Dir
                &&& !name.contains('/')
                &&& name != seq!['.'] && name != seq!['.', '.']
                &&& parent.path.len() == 0 ==> p == name
                &&& parent.path.len() > 0 ==> p == parent.path + seq!['/'] + name
            },
            Err(e) => {
                ||| parent.attrs.kind == NodeKind::File && e.code == Code::FailedPrecondition
                ||| parent.attrs.kind == NodeKind::Dir && e.code == Code::InvalidArgument && (
                name.contains('/') || name == seq!['.'] || name == seq!['.', '.'])
            },
        },
{
    reveal_strlit("/");
    assert("/"@ =~= seq!['/']);
    if has_char(name, '/') {
        let i = choose|i: int| 0 <= i < name.len() && name[i] == '/';
        assert(name.contains('/'));
    }
}

/// A query is one quoted phrase, from which it can be read back, unless it begins with `raw:` and
/// goes on: then what goes on is handed over as it is.
pub proof fn lemma_query_is_phrase_or_raw(raw: Seq<char>, expr: Seq<char>)
    ensures
        !has_prefix(trim(raw), seq!['r', 'a', 'w', ':']) ==> {
            let q = fts_query(raw);
            &&& q.len() >= 2
            &&& q[0] == '"'
            &&& q.last() == '"'
            &&& quotes_halved(q.subrange(1, q.len() - 1)) == trim(raw)
        },
        trim(raw) == seq!['r', 'a', 'w', ':'] + expr && !is_blank(expr) ==> fts_query(raw) == trim(
            expr,
        ),
        trim(raw) == seq!['r', 'a', 'w', ':'] + expr && is_blank(expr) ==> {
            let q = fts_query(raw);
            &&& q.len() >= 2
            &&& q[0] == '"'
            &&& q.last() == '"'
            &&& quotes_halved(q.subrange(1, q.len() - 1)) == trim(raw)
        },
{
    let t = trim(raw);
    let p = seq!['r', 'a', 'w', ':'];
    reveal_strlit("raw:");
    reveal_strlit("\"");
    assert("raw:"@ =~= p);
    assert("\""@ =~= seq!['"']);
    lemma_quoting_keeps_query(t);
    let q = "\""@ + quotes_doubled(t) + "\""@;
    assert(q.subrange(1, q.len() - 1) =~= quotes_doubled(t));
    if t == p + expr {
        lemma_blank_trims_to_nothing(expr);
        assert(t.take(4) =~= p);
        assert(t.skip(4) =~= expr);
    }
}

/// The event is of a kind that the filter lists.
pub open spec fn lists_kind(filter: FilterView, event: EventView) -> bool {
    exists|i: int|
        0 <= i < filter.kinds.len() && #[trigger] same_event_kind(filter.kinds[i], event.kind)
}

/// The event is about a node that the filter lists.
pub open spec fn lists_node(filter: FilterView, event: EventView) -> bool {
    exists|i: int| 0 <= i < filter.node_ids.len() && #[trigger] filter.node_ids[i] == event.node_id
}

/// The event is at a path that the filter lists, or below it.
pub open spec fn lists_path(filter: FilterView, event: EventView) -> bool {
    exists|i: int, rest: Seq<char>|
        0 <= i < filter.path_prefix.len() && (event.path == filter.path_prefix[i] || event.path
            == #[trigger] (filter.path_prefix[i] + seq!['/'] + rest))
}

proof fn lemma_lists_path(filter: FilterView, event: EventView)
    ensures
        lists_path(filter, event) <==> filter.covers_path(event.path),
{
    reveal_strlit("/");
    assert("/"@ =~= seq!['/']);
    if filter.covers_path(event.path) {
        let i = choose|i: int|
            0 <= i < filter.path_prefix.len() && (event.path == #[trigger] filter.path_prefix[i]
                || has_prefix(event.path, filter.path_prefix[i] + "/"@));
        let dir = filter.path_prefix[i] + "/"@;
        if event.path == filter.path_prefix[i] {
            let rest = Seq::<char>::empty();
            let witness = filter.path_prefix[i] + seq!['/'] + rest;
            assert(lists_path(filter, event));
        } else {
            let rest = event.path.skip(dir.len() as int);
            assert(event.path =~= filter.path_prefix[i] + seq!['/'] + rest);
        }
    }
    if lists_path(filter, event) {
        let (i, rest) = choose|i: int, rest: Seq<char>|
            0 <= i < filter.path_prefix.len() && (event.path == filter.path_prefix[i] || event.path
                == #[trigger] (filter.path_prefix[i] + seq!['/'] + rest));
        let dir = filter.path_prefix[i] + "/"@;
        if event.path != filter.path_prefix[i] {
            assert(event.path.take(dir.len() as int) =~= dir);
        }
    }
}

/// What is sent is of a listed kind, about a listed node and at or below a listed path, where such
/// are listed, and is no event of the indexer where these are left out.
pub proof fn lemma_only_what_was_asked_for_is_sent(filter: FilterView, event: EventView)
    requires
        filter.admits(event),
    ensures
        filter.kinds.len() > 0 ==> lists_kind(filter, event),
        filter.node_ids.len() > 0 ==> lists_node(filter, event),
        filter.path_prefix.len() > 0 ==> lists_path(filter, event),
        !filter.include_index_events ==> event.kind != EventKind::IndexUpdated,
{
    if filter.kinds.len() > 0 {
        let i = choose|i: int|
            0 <= i < filter.kinds.len() && filter.kinds[i] == proto_event_kind(event.kind);
        assert(same_event_kind(filter.kinds[i], event.kind));
    }
    lemma_lists_path(filter, event);
}

/// Whatever was asked for is sent: an event of a listed kind, about a listed node and at or below a
/// listed path, where such are listed, unless it is one of the indexer and these are left out.
pub proof fn lemma_what_was_asked_for_is_sent(filter: FilterView, event: EventView)
    requires
        filter.kinds.len() == 0 || lists_kind(filter, event),
        filter.node_ids.len() == 0 || lists_node(filter, event),
        filter.path_prefix.len() == 0 || lists_path(filter, event),
        filter.include_index_events || event.kind != EventKind::IndexUpdated,
    ensures
        filter.admits(event),
{
    if filter.kinds.len() > 0 {
        let i = choose|i: int|
            0 <= i < filter.kinds.len() && #[trigger] same_event_kind(filter.kinds[i], event.kind);
        assert(filter.kinds[i] == proto_event_kind(event.kind));
    }
    if filter.node_ids.len() > 0 {
        let i = choose|i: int|
            0 <= i < filter.node_ids.len() && #[trigger] filter.node_ids[i] == event.node_id;
        assert(filter.node_ids.contains(event.node_id));
    }
    lemma_lists_path(filter, event);
}

/// With a filter for one kind, the events of this kind are sent and no others.
pub proof fn lemma_filter_for_one_kind(wire: ProtoEventKind, event: EventView)
    ensures
        (FilterView {
            path_prefix: Seq::empty(),
            node_ids: Seq::empty(),
            kinds: seq![wire],
            include_index_events: true,
        }).admits(event) <==> same_event_kind(wire, event.kind),
{
    let f = FilterView {
        path_prefix: Seq::empty(),
        node_ids: Seq::empty(),
        kinds: seq![wire],
        include_index_events: true,
    };
    if f.admits(event) {
        lemma_only_what_was_asked_for_is_sent(f, event);
    }
    if same_event_kind(wire, event.kind) {
        assert(same_event_kind(f.kinds[0], event.kind));
        lemma_what_was_asked_for_is_sent(f, event);
    }
}

/// With a filter for one node, the events about this node are sent and no others.
pub proof fn lemma_filter_for_one_node(node_id: Seq<char>, event: EventView)
    ensures
        (FilterView {
            path_prefix: Seq::empty(),
            node_ids: seq![node_id],
            kinds: Seq::empty(),
            include_index_events: true,
        }).admits(event) <==> event.node_id == node_id,
{
    let f = FilterView {
        path_prefix: Seq::empty(),
        node_ids: seq![node_id],
        kinds: Seq::empty(),
        include_index_events: true,
    };
    if f.admits(event) {
        lemma_only_what_was_asked_for_is_sent(f, event);
    }
    if event.node_id == node_id {
        assert(f.node_ids[0] == event.node_id);
        lemma_what_was_asked_for_is_sent(f, event);
    }
}

pub(crate) proof fn lemma_filtered<A>(s: Seq<A>, keep: spec_fn(A) -> bool, x: A)
    ensures
        s.filter(keep).contains(x) <==> s.contains(x) && keep(x),
    decreases s.len(),
{
    reveal(Seq::filter);
    if s.len() > 0 {
        let t = s.drop_last();
        lemma_filtered(t, keep, x);
        let f = t.filter(keep);
        assert(t.push(s.last()) =~= s);
        if s.contains(x) {
            let i = choose|i: int| 0 <= i < s.len() && s[i] == x;
            if i < t.len() {
                assert(t[i] == x);
            }
        }
        if t.contains(x) {
            let i = choose|i: int| 0 <= i < t.len() && t[i] == x;
            assert(s[i] == x);
        }
        assert(s[s.len() - 1] == s.last());
        if keep(s.last()) {
            let g = f.push(s.last());
            assert(s.filter(keep) == g);
            assert(g[g.len() - 1] == s.last());
            if f.contains(x) {
                let i = choose|i: int| 0 <= i < f.len() && f[i] == x;
                assert(g[i] == x);
            }
            if g.contains(x) {
                let i = choose|i: int| 0 <= i < g.len() && g[i] == x;
                if i < f.len() {
                    assert(f[i] == x);
                }
            }
        }
    }
}

/// A filter keeps its kinds, its ids but for blank ones, and its paths without leading slashes but
/// for those that are then empty.
pub proof fn lemma_filter_is_kept(filter: FilterView, id: Seq<char>, path: Seq<char>)
    ensures
        filter.normalized().kinds == filter.kinds,
        filter.normalized().include_index_events == filter.include_index_events,
        filter.normalized().node_ids.contains(id) <==> filter.node_ids.contains(id) && !is_blank(id),
        filter.path_prefix.contains(path) && strip_slashes(path).len() > 0
            ==> filter.normalized().path_prefix.contains(strip_slashes(path)),
        filter.normalized().path_prefix.contains(path) ==> path.len() > 0 && path[0] != '/',
{
    lemma_filtered(filter.node_ids, |n: Seq<char>| !is_blank(n), id);
    let stripped = filter.path_prefix.map_values(|p: Seq<char>| strip_slashes(p));
    lemma_filtered(stripped, |p: Seq<char>| p.len() > 0, strip_slashes(path));
    lemma_filtered(stripped, |p: Seq<char>| p.len() > 0, path);
    if filter.path_prefix.contains(path) {
        let i = choose|i: int| 0 <= i < filter.path_prefix.len() && filter.path_prefix[i] == path;
        assert(stripped[i] == strip_slashes(path));
    }
    if stripped.contains(path) {
        let i = choose|i: int| 0 <= i < stripped.len() && stripped[i] == path;
        crate::paths::lemma_strip_slashes(filter.path_prefix[i]);
    }
}

/// What is asked for by number is what is done: each mode is its own, and one that is not said is
/// the plainest.
pub proof fn lemma_modes_on_the_wire(
    search: ProtoSearchMode,
    s: SearchMode,
    handle: ProtoHandleMode,
    h: HandleMode,
)
    requires
        call_ensures(to_index_search_mode, (search,), s),
        call_ensures(to_index_handle_mode, (handle,), h),
    ensures
        s == SearchMode::Vector <==> search == ProtoSearchMode::Vector,
        s == SearchMode::Hybrid <==> search == ProtoSearchMode::Hybrid,
        h == HandleMode::Write <==> handle == ProtoHandleMode::Write,
        h == HandleMode::ReadWrite <==> handle == ProtoHandleMode::ReadWrite,
{
}

/// A version of zero stands for none, and a change of attributes is what was sent with it and
/// nothing else.
pub proof fn lemma_what_was_sent(
    if_version: u64,
    v: Option<u64>,
    has_mode: bool,
    mode: u32,
    has_mtime: bool,
    mtime_unix_nano: i64,
    patch: AttrsPatch,
)
    requires
        call_ensures(expected_version, (if_version,), v),
        call_ensures(attrs_patch, (has_mode, mode, has_mtime, mtime_unix_nano), patch),
    ensures
        v is None <==> if_version == 0,
        v is Some ==> v->0 == if_version,
        patch.mode is Some <==> has_mode,
        patch.mode is Some ==> patch.mode->0 == mode,
        patch.mtime_unix_nano is Some <==> has_mtime,
        patch.mtime_unix_nano is Some ==> patch.mtime_unix_nano->0 == mtime_unix_nano,
{
}

/// A node that is not there cannot be written to, and only a file can be read as one.
pub proof fn lemma_only_files_are_read(
    path: String,
    found: Result<String, Status>,
    gone: Result<String, Status>,
    node: &NodeRecord,
    r: Result<(), Status>,
)
    requires
        call_ensures(put_path_of_node, (Some(path),), found),
        call_ensures(put_path_of_node, (None,), gone),
        call_ensures(check_file_node, (node,), r),
    ensures
        found is Ok && found->Ok_0@ == path@,
        gone is Err && gone->Err_0@.code == Code::NotFound,
        r is Ok <==> node@.attrs.kind == NodeKind::File,
        r is Err ==> r->Err_0@.code == Code::FailedPrecondition,
{
}

/// An event is sent to a subscriber exactly where it is of a kind that was asked for, of a node and
/// below a path that were asked for, each of these counting only where something was asked, and
/// where it tells of the index only if that was asked for too.
pub proof fn lemma_which_events_are_sent(event: &EventRecord, filter: &SubscribeFilter, r: bool)
    requires
        call_ensures(should_emit_event, (event, filter), r),
    ensures
        r <==> {
            &&& filter@.kinds.len() == 0 || lists_kind(filter@, event@)
            &&& filter@.node_ids.len() == 0 || lists_node(filter@, event@)
            &&& filter@.path_prefix.len() == 0 || lists_path(filter@, event@)
            &&& filter@.include_index_events || event@.kind != EventKind::IndexUpdated
        },
{
    if r {
        lemma_only_what_was_asked_for_is_sent(filter@, event@);
    } else if {
        &&& filter@.kinds.len() == 0 || lists_kind(filter@, event@)
        &&& filter@.node_ids.len() == 0 || lists_node(filter@, event@)
        &&& filter@.path_prefix.len() == 0 || lists_path(filter@, event@)
        &&& filter@.include_index_events || event@.kind != EventKind::IndexUpdated
    } {
        lemma_what_was_asked_for_is_sent(filter@, event@);
    }
}

/// Kinds go over the wire as what they are and come back as the same.
pub proof fn lemma_kinds_come_back(
    kind: NodeKind,
    proto: ProtoNodeKind,
    back: Result<NodeKind, &'static str>,
    event: EventKind,
    wire: ProtoEventKind,
)
    requires
        call_ensures(from_proto_kind, (proto,), back),
        call_ensures(to_proto_event_kind, (event,), wire),
    ensures
        proto == ProtoNodeKind::File ==> back == Ok::<NodeKind, &'static str>(NodeKind::File),
        proto == ProtoNodeKind::Dir ==> back == Ok::<NodeKind, &'static str>(NodeKind::Dir),
        proto == ProtoNodeKind::Unspecified ==> back is Err,
        same_event_kind(wire, event),
{
    lemma_kinds_on_the_wire(event, wire);
    if back is Ok {
        assert(proto == proto_node_kind(back->Ok_0));
    }
}

/// What went wrong is answered under its code, with its own sentence.
pub proof fn lemma_errors_are_answered(err: &IndexError, r: Status)
    requires
        call_ensures(index_status, (err,), r),
    ensures
        r@.message == err@.message(),
        r@.code == Code::NotFound <==> err@ is WorkspaceNotFound || err@ is NodeNotFound
            || err@ is NodeIdNotFound || err@ is ParentNotFound,
        r@.code == Code::AlreadyExists <==> err@ is WorkspaceAlreadyExists
            || err@ is AlreadyExistsAtPath,
        r@.code == Code::FailedPrecondition <==> err@ is NotDirectory || err@ is DirectoryNotEmpty
            || err@ is VersionConflict,
{
    lemma_error_codes(err@);
}

} // verus!

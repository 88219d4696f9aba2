//! The bytes of an open file: writes, reads and truncation, in memory and on disk.
use crate::index_error::{agrees, ErrorView, IndexError};
use crate::model::{
    opt_node,
    HandleContentRecord,
    HandleMode,
    NodeKind,
    NodeRecord,
    NodeView,
};
use crate::nodes::{node_required, require_node};
use crate::numbers::saturated_u64;
use crate::text::join3;
use vstd::prelude::*;

verus! {

// ---------------------------------------------------------------------------
// Content as a sequence of bytes
// ---------------------------------------------------------------------------

/// `base` cut or padded with zeros to the length `n`.
pub open spec fn resized(base: Seq<u8>, n: int) -> Seq<u8> {
    Seq::new(
        n as nat,
        |i: int|
            if i < base.len() {
                base[i]
            } else {
                0u8
            },
    )
}

/// `base` with `data` written at `offset`; a gap in front of it is filled with zeros.
pub open spec fn written(base: Seq<u8>, offset: int, data: Seq<u8>) -> Seq<u8> {
    let n = if base.len() < offset + data.len() {
        offset + data.len()
    } else {
        base.len() as int
    };
    Seq::new(
        n as nat,
        |i: int|
            if offset <= i < offset + data.len() {
                data[i - offset]
            } else if i < base.len() {
                base[i]
            } else {
                0u8
            },
    )
}

/// At most `length` bytes of the content from `offset` on, and whether they reach its end.
pub open spec fn read_window(content: Seq<u8>, offset: int, length: int) -> (Seq<u8>, bool) {
    if offset >= content.len() {
        (Seq::empty(), true)
    } else if offset + length >= content.len() {
        (content.skip(offset), true)
    } else {
        (content.subrange(offset, offset + length), false)
    }
}

/// A read gives back what a write put there, and reaches the end exactly when the write did.
pub proof fn lemma_read_after_write(base: Seq<u8>, offset: int, data: Seq<u8>)
    requires
        0 <= offset,
        data.len() > 0,
    ensures
        read_window(written(base, offset, data), offset, data.len() as int).0 == data,
        read_window(written(base, offset, data), offset, data.len() as int).1 <==> offset
            + data.len() >= base.len(),
{
    let w = written(base, offset, data);
    assert(read_window(w, offset, data.len() as int).0 =~= data);
}

/// A write leaves every other byte of the content alone.
pub proof fn lemma_write_is_local(base: Seq<u8>, offset: int, data: Seq<u8>, i: int)
    requires
        0 <= offset,
        0 <= i < base.len(),
        i < offset || offset + data.len() <= i,
    ensures
        i < written(base, offset, data).len(),
        written(base, offset, data)[i] == base[i],
{
}

/// Writing twice at the same place is writing the second data, where it is as long as the first.
pub proof fn lemma_last_write_wins(base: Seq<u8>, offset: int, first: Seq<u8>, second: Seq<u8>)
    requires
        0 <= offset,
        first.len() == second.len(),
    ensures
        written(written(base, offset, first), offset, second) == written(base, offset, second),
{
    assert(written(written(base, offset, first), offset, second) =~= written(base, offset, second));
}

/// The windows of a content, read one behind the other, make up the content.
pub proof fn lemma_windows_join(content: Seq<u8>, offset: int, length: int)
    requires
        0 <= offset,
        0 < length,
        offset + length < content.len(),
    ensures
        content.take(offset) + read_window(content, offset, length).0 == content.take(
            offset + length,
        ),
        !read_window(content, offset, length).1,
{
    assert(content.take(offset) + content.subrange(offset, offset + length) =~= content.take(
        offset + length,
    ));
}

fn resize(v: &mut Vec<u8>, n: usize)
    ensures
        final(v)@ == resized(old(v)@, n as int),
{
    let ghost base = v@;
    if v.len() > n {
        v.truncate(n);
        proof {
            assert(v@ =~= resized(base, n as int));
        }
        return;
    }
    while v.len() < n
        invariant
            base.len() <= v@.len() <= n,
            v@ == resized(base, v@.len() as int),
        decreases n - v@.len(),
    {
        let ghost before = v@;
        v.push(0);
        proof {
            assert(v@ =~= resized(base, v@.len() as int)) by {
                assert(before == resized(base, before.len() as int));
            }
        }
    }
    proof {
        assert(v@ =~= resized(base, n as int));
    }
}

fn copied(b: &[u8], from: usize, to: usize) -> (r: Vec<u8>)
    requires
        from <= to <= b@.len(),
    ensures
        r@ == b@.subrange(from as int, to as int),
{
    let mut r: Vec<u8> = Vec::new();
    let mut i: usize = from;
    while i < to
        invariant
            from <= i <= to <= b@.len(),
            r@ == b@.subrange(from as int, i as int),
        decreases to - i,
    {
        r.push(b[i]);
        proof {
            assert(r@ =~= b@.subrange(from as int, i + 1));
        }
        i += 1;
    }
    r
}

/// Writes `data` at `offset` into a buffer.
fn write_into(v: &mut Vec<u8>, offset: usize, data: &[u8])
    requires
        offset + data@.len() <= usize::MAX,
    ensures
        final(v)@ == written(old(v)@, offset as int, data@),
{
    let ghost base = v@;
    let n = data.len();
    if v.len() < offset + n {
        resize(v, offset + n);
    }
    let ghost padded = v@;
    let mut i: usize = 0;
    while i < n
        invariant
            i <= n,
            n == data@.len(),
            offset + n <= padded.len(),
            offset + n <= usize::MAX,
            v@.len() == padded.len(),
            forall|k: int|
                0 <= k < padded.len() ==> #[trigger] v@[k] == if offset <= k < offset + i {
                    data@[k - offset]
                } else {
                    padded[k]
                },
        decreases n - i,
    {
        v.set(offset + i, data[i]);
        i += 1;
    }
    proof {
        assert(v@ =~= written(base, offset as int, data@));
    }
}

/// The content behind a write. An offset that no buffer can reach leaves the content as it is.
pub open spec fn merged(base: Seq<u8>, offset: u64, data: Seq<u8>) -> Seq<u8> {
    if offset > usize::MAX {
        base
    } else {
        written(base, offset as int, data)
    }
}

pub fn merge_write(base_content: &[u8], offset: u64, data: &[u8]) -> (r: Vec<u8>)
    requires
        offset <= usize::MAX ==> offset + data@.len() <= usize::MAX,
    ensures
        r@ == merged(base_content@, offset, data@),
{
    let mut out = copied(base_content, 0, base_content.len());
    proof {
        assert(base_content@.subrange(0, base_content@.len() as int) =~= base_content@);
    }
    if offset > usize::MAX as u64 {
        return out;
    }
    write_into(&mut out, offset as usize, data);
    out
}

/// Reads at most `length` bytes of the content from `offset` on.
pub fn clamp_read_window(content: &[u8], offset: u64, length: u32) -> (r: (Vec<u8>, bool))
    ensures
        (r.0@, r.1) == read_window(content@, offset as int, length as int),
{
    let n = content.len();
    if offset >= n as u64 {
        return (Vec::new(), true);
    }
    let start = offset as usize;
    if (n - start) as u64 <= length as u64 {
        proof {
            assert(content@.subrange(start as int, n as int) =~= content@.skip(start as int));
        }
        (copied(content, start, n), true)
    } else {
        (copied(content, start, start + length as usize), false)
    }
}

// ---------------------------------------------------------------------------
// Operations on a handle
// ---------------------------------------------------------------------------

/// What a node is opened with. The index holds no content: the bytes are in the content store.
pub fn get_handle_content(workspace_id: &str, node_id: &str, node: Option<NodeRecord>) -> (r: Result<
    HandleContentRecord,
    IndexError,
>)
    ensures
        match (r, node_required(opt_node(node), workspace_id@, node_id@)) {
            (Ok(h), Ok(n)) => {
                &&& n.attrs.kind == NodeKind::File
                &&& h.node_id@ == n.node_id
                &&& h.path@ == n.path
                &&& h.attrs@ == n.attrs
                &&& h.content@ == Seq::<u8>::empty()
            },
            (Err(e), Ok(n)) => n.attrs.kind != NodeKind::File && e@ == ErrorView::InvalidHandleMode(
                "node "@ + n.node_id + " is not a file"@,
            ),
            (Err(e), Err(want)) => e@ == want,
            (Ok(_), Err(_)) => false,
        },
{
    let n = match require_node(node, workspace_id, node_id) {
        Ok(n) => n,
        Err(e) => {
            return Err(e);
        },
    };
    match n.attrs.kind {
        NodeKind::File => {},
        NodeKind::Dir => {
            return Err(
                IndexError::InvalidHandleMode(
                    join3("node ", n.node_id.as_str(), " is not a file"),
                ),
            );
        },
    }
    let content: Vec<u8> = Vec::new();
    proof {
        assert(content@ =~= Seq::<u8>::empty());
    }
    Ok(HandleContentRecord { node_id: n.node_id, path: n.path, content, attrs: n.attrs })
}

/// The index has no content of files to give.
pub fn get_file(_workspace_id: &str, _path: &str) -> (r: Result<Vec<u8>, IndexError>)
    ensures
        r matches Err(e) && e@ == ErrorView::ContentNotInIndex,
{
    Err(IndexError::ContentNotInIndex)
}

pub open spec fn write_handle_result(
    workspace_id: Seq<char>,
    node_id: Seq<char>,
    node: Option<NodeView>,
    mode: HandleMode,
    base: Seq<u8>,
    offset: u64,
    data: Seq<u8>,
) -> Result<Seq<u8>, ErrorView> {
    if mode == HandleMode::Read {
        Err(ErrorView::InvalidHandleMode("handle is read-only"@))
    } else {
        match node_required(node, workspace_id, node_id) {
            Ok(_) => Ok(merged(base, offset, data)),
            Err(e) => Err(e),
        }
    }
}

/// Writes through a handle, which has to allow it, on a node that is there.
pub fn write_handle(
    workspace_id: &str,
    node_id: &str,
    node: Option<NodeRecord>,
    mode: HandleMode,
    base_content: &[u8],
    offset: u64,
    data: &[u8],
) -> (r: Result<Vec<u8>, IndexError>)
    requires
        offset <= usize::MAX ==> offset + data@.len() <= usize::MAX,
    ensures
        agrees(
            r,
            write_handle_result(
                workspace_id@,
                node_id@,
                opt_node(node),
                mode,
                base_content@,
                offset,
                data@,
            ),
        ),
{
    if !mode.allows_write() {
        return Err(IndexError::InvalidHandleMode("handle is read-only".to_owned()));
    }
    match require_node(node, workspace_id, node_id) {
        Ok(_) => Ok(merge_write(base_content, offset, data)),
        Err(e) => Err(e),
    }
}

pub open spec fn truncate_handle_result(
    workspace_id: Seq<char>,
    node_id: Seq<char>,
    node: Option<NodeView>,
    mode: HandleMode,
    base: Seq<u8>,
    size: u64,
) -> Result<Seq<u8>, ErrorView> {
    if mode == HandleMode::Read {
        Err(ErrorView::InvalidHandleMode("handle is read-only"@))
    } else {
        match node_required(node, workspace_id, node_id) {
            Ok(_) => if size > usize::MAX {
                Err(ErrorView::NumericConversion)
            } else {
                Ok(resized(base, size as int))
            },
            Err(e) => Err(e),
        }
    }
}

/// Cuts or pads a content through a handle, which has to allow it, on a node that is there.
pub fn truncate_handle(
    workspace_id: &str,
    node_id: &str,
    node: Option<NodeRecord>,
    mode: HandleMode,
    base_content: &[u8],
    size: u64,
) -> (r: Result<Vec<u8>, IndexError>)
    ensures
        agrees(
            r,
            truncate_handle_result(
                workspace_id@,
                node_id@,
                opt_node(node),
                mode,
                base_content@,
                size,
            ),
        ),
{
    if !mode.allows_write() {
        return Err(IndexError::InvalidHandleMode("handle is read-only".to_owned()));
    }
    match require_node(node, workspace_id, node_id) {
        Ok(_) => {},
        Err(e) => {
            return Err(e);
        },
    }
    if size > usize::MAX as u64 {
        return Err(IndexError::NumericConversion);
    }
    let mut out = copied(base_content, 0, base_content.len());
    proof {
        assert(base_content@.subrange(0, base_content@.len() as int) =~= base_content@);
    }
    resize(&mut out, size as usize);
    Ok(out)
}

/// Reads through a handle, which has to allow it, on a node that is there.
pub fn read_handle(
    workspace_id: &str,
    node_id: &str,
    node: Option<NodeRecord>,
    mode: HandleMode,
    content: &[u8],
    offset: u64,
    length: u32,
) -> (r: Result<(Vec<u8>, bool), IndexError>)
    ensures
        match r {
            Ok((data, eof)) => {
                &&& mode != HandleMode::Write
                &&& node is Some
                &&& (data@, eof) == read_window(content@, offset as int, length as int)
            },
            Err(e) => if mode == HandleMode::Write {
                e@ == ErrorView::InvalidHandleMode("handle is write-only"@)
            } else {
                node is None && Err::<NodeView, ErrorView>(e@) == node_required(
                    None,
                    workspace_id@,
                    node_id@,
                )
            },
        },
{
    if !mode.allows_read() {
        return Err(IndexError::InvalidHandleMode("handle is write-only".to_owned()));
    }
    match require_node(node, workspace_id, node_id) {
        Ok(_) => Ok(clamp_read_window(content, offset, length)),
        Err(e) => Err(e),
    }
}

/// Only a handle that allows writing is written back.
pub fn check_flush_mode(mode: HandleMode) -> (r: Result<(), IndexError>)
    ensures
        match r {
            Ok(_) => mode != HandleMode::Read,
            Err(e) => mode == HandleMode::Read && e@ == ErrorView::InvalidHandleMode(
                "flush requires writable handle"@,
            ),
        },
{
    if !mode.allows_write() {
        return Err(IndexError::InvalidHandleMode("flush requires writable handle".to_owned()));
    }
    Ok(())
}

// ---------------------------------------------------------------------------
// Bodies: small ones in memory, large ones in a file
// ---------------------------------------------------------------------------

/// The body of an open handle: in memory up to a limit, beyond it in a file of its own, of which
/// the length and the path are known here.
#[derive(Debug, Clone, PartialEq, Eq)]
pub enum HandleBody {
    Memory(Vec<u8>),
    Spilled { len: u64, path: String },
}

#[verifier::ext_equal]
pub enum BodyView {
    Memory(Seq<u8>),
    Spilled { len: u64, path: Seq<char> },
}

impl View for HandleBody {
    type V = BodyView;

    open spec fn view(&self) -> BodyView {
        match *self {
            HandleBody::Memory(b) => BodyView::Memory(b@),
            HandleBody::Spilled { len, path } => BodyView::Spilled { len, path: path@ },
        }
    }
}

impl BodyView {
    pub open spec fn empty() -> BodyView {
        BodyView::Memory(Seq::empty())
    }

    /// The length that is known of a body.
    pub open spec fn len(self) -> nat {
        match self {
            BodyView::Memory(b) => b.len(),
            BodyView::Spilled { len, .. } => len as nat,
        }
    }

    /// The body holds `content`, where `disk` is what its file holds.
    pub open spec fn holds(self, disk: Seq<u8>, content: Seq<u8>) -> bool {
        match self {
            BodyView::Memory(b) => content == b,
            BodyView::Spilled { len, .. } => disk.len() == len && content == disk,
        }
    }
}

/// What a file holds once its length is set and data is written to it at an offset.
pub open spec fn file_after_write(disk: Seq<u8>, set_len: Option<u64>, offset: u64, data: Seq<u8>) -> Seq<
    u8,
> {
    written(
        match set_len {
            Some(n) => resized(disk, n as int),
            None => disk,
        },
        offset as int,
        data,
    )
}

/// How a write goes about.
#[derive(Debug, Clone, Copy, PartialEq, Eq, Structural)]
pub enum WriteAction {
    /// The buffer takes it.
    InMemory,
    /// The buffer has to be moved to a file first.
    Spill,
    /// The file takes it, once it has the length that is given.
    OnDisk { set_len: Option<u64> },
}

pub open spec fn write_action_of(
    body: BodyView,
    offset: u64,
    data_len: int,
    memory_limit: int,
) -> WriteAction {
    let required = saturated_u64(offset + data_len);
    match body {
        BodyView::Memory(b) => if required > memory_limit {
            WriteAction::Spill
        } else {
            WriteAction::InMemory
        },
        BodyView::Spilled { len, .. } => WriteAction::OnDisk {
            set_len: if required > len {
                Some(required)
            } else {
                None
            },
        },
    }
}

/// How a truncation goes about.
#[derive(Debug, Clone, Copy, PartialEq, Eq, Structural)]
pub enum TruncateAction {
    InMemory,
    Spill,
    OnDisk,
}

/// What a read has to fetch from the file: so many bytes from an offset on.
#[derive(Debug, Clone, Copy, PartialEq, Eq, Structural)]
pub struct ReadSpan {
    pub offset: u64,
    pub len: u64,
    pub eof: bool,
}

/// The span of a read within a body of the length `len`.
pub open spec fn read_span_of(len: int, offset: u64, length: u32) -> ReadSpan {
    if offset >= len {
        ReadSpan { offset, len: 0, eof: true }
    } else if offset + length >= len {
        ReadSpan { offset, len: (len - offset) as u64, eof: true }
    } else {
        ReadSpan { offset, len: length as u64, eof: false }
    }
}

impl HandleBody {
    pub fn empty() -> (r: HandleBody)
        ensures
            r@ == BodyView::empty(),
    {
        let b: Vec<u8> = Vec::new();
        proof {
            assert(b@ =~= Seq::empty());
        }
        HandleBody::Memory(b)
    }

    /// Whether content of this length is kept in memory.
    pub fn fits_in_memory(len: u64, memory_limit: usize) -> (r: bool)
        ensures
            r == (len <= memory_limit),
    {
        len <= memory_limit as u64
    }

    /// The body that a file of the given length at a path stands for.
    pub fn spilled(len: u64, path: String) -> (r: HandleBody)
        ensures
            r@ == (BodyView::Spilled { len, path: path@ }),
    {
        HandleBody::Spilled { len, path }
    }

    /// A copy of the body, for writing it back in the background.
    pub fn snapshot(&self) -> (r: HandleBody)
        ensures
            r@ == self@,
    {
        match self {
            HandleBody::Memory(b) => {
                let copy = copied(b.as_slice(), 0, b.len());
                proof {
                    assert(b@.subrange(0, b@.len() as int) =~= b@);
                }
                HandleBody::Memory(copy)
            },
            HandleBody::Spilled { len, path } => HandleBody::Spilled {
                len: *len,
                path: path.clone(),
            },
        }
    }

    pub fn len(&self) -> (r: u64)
        ensures
            r == self@.len(),
    {
        match self {
            HandleBody::Memory(b) => b.len() as u64,
            HandleBody::Spilled { len, .. } => *len,
        }
    }

    /// How a write of `data_len` bytes at `offset` is to go about.
    pub fn write_action(&self, offset: u64, data_len: usize, memory_limit: usize) -> (r:
        WriteAction)
        ensures
            r == write_action_of(self@, offset, data_len as int, memory_limit as int),
    {
        let required: u64 = offset.saturating_add(data_len as u64);
        match self {
            HandleBody::Memory(_) => {
                if required > memory_limit as u64 {
                    WriteAction::Spill
                } else {
                    WriteAction::InMemory
                }
            },
            HandleBody::Spilled { len, .. } => {
                if required > *len {
                    WriteAction::OnDisk { set_len: Some(required) }
                } else {
                    WriteAction::OnDisk { set_len: None }
                }
            },
        }
    }

    /// Takes a write that the memory limit admits, into the buffer of a body in memory; of a body
    /// in a file it takes the length that the file then has.
    pub fn note_write(&mut self, offset: u64, data: &[u8], memory_limit: usize)
        requires
            write_action_of(old(self)@, offset, data@.len() as int, memory_limit as int)
                != WriteAction::Spill,
            old(self)@ is Memory ==> offset + data@.len() <= u64::MAX,
        ensures
            match old(self)@ {
                BodyView::Memory(b) => final(self)@ == BodyView::Memory(
                    written(b, offset as int, data@),
                ),
                BodyView::Spilled { len, path } => final(self)@ == (BodyView::Spilled {
                    len: if saturated_u64(offset + data@.len()) > len {
                        saturated_u64(offset + data@.len())
                    } else {
                        len
                    },
                    path,
                }),
            },
    {
        let n = data.len();
        match self {
            HandleBody::Memory(b) => {
                write_into(b, offset as usize, data);
            },
            HandleBody::Spilled { len, .. } => {
                let required: u64 = offset.saturating_add(n as u64);
                if required > *len {
                    *len = required;
                }
            },
        }
    }

    /// How a truncation to `size` bytes is to go about.
    pub fn truncate_action(&self, size: u64, memory_limit: usize) -> (r: TruncateAction)
        ensures
            r == match self@ {
                BodyView::Memory(_) => if size > memory_limit {
                    TruncateAction::Spill
                } else {
                    TruncateAction::InMemory
                },
                BodyView::Spilled { .. } => TruncateAction::OnDisk,
            },
    {
        match self {
            HandleBody::Memory(_) => {
                if size > memory_limit as u64 {
                    TruncateAction::Spill
                } else {
                    TruncateAction::InMemory
                }
            },
            HandleBody::Spilled { .. } => TruncateAction::OnDisk,
        }
    }

    /// Takes a truncation, into the buffer of a body in memory; of a body in a file it takes the
    /// length.
    pub fn note_truncate(&mut self, size: usize)
        ensures
            match old(self)@ {
                BodyView::Memory(b) => final(self)@ == BodyView::Memory(resized(b, size as int)),
                BodyView::Spilled { path, .. } => final(self)@ == (BodyView::Spilled {
                    len: size as u64,
                    path,
                }),
            },
    {
        match self {
            HandleBody::Memory(b) => {
                resize(b, size);
            },
            HandleBody::Spilled { len, .. } => {
                *len = size as u64;
            },
        }
    }

    /// The part of the body that a read asks for.
    pub fn read_span(&self, offset: u64, length: u32) -> (r: ReadSpan)
        ensures
            r == read_span_of(self@.len() as int, offset, length),
    {
        let len = self.len();
        if offset >= len {
            ReadSpan { offset, len: 0, eof: true }
        } else if len - offset <= length as u64 {
            ReadSpan { offset, len: len - offset, eof: true }
        } else {
            ReadSpan { offset, len: length as u64, eof: false }
        }
    }

    /// The bytes of a read from a body in memory.
    pub fn read_memory(&self, offset: u64, length: u32) -> (r: Option<(Vec<u8>, bool)>)
        ensures
            match (self@, r) {
                (BodyView::Memory(b), Some((data, eof))) => (data@, eof) == read_window(
                    b,
                    offset as int,
                    length as int,
                ),
                (BodyView::Spilled { .. }, None) => true,
                _ => false,
            },
    {
        match self {
            HandleBody::Memory(b) => Some(clamp_read_window(b.as_slice(), offset, length)),
            HandleBody::Spilled { .. } => None,
        }
    }
}

/// A write has the same effect on the content of a body in memory and of one in a file.
pub proof fn lemma_write_wherever_it_is(
    body: BodyView,
    disk: Seq<u8>,
    content: Seq<u8>,
    offset: u64,
    data: Seq<u8>,
    memory_limit: int,
)
    requires
        body.holds(disk, content),
        offset + data.len() <= u64::MAX,
    ensures
        match write_action_of(body, offset, data.len() as int, memory_limit) {
            WriteAction::InMemory => body == BodyView::Memory(content),
            WriteAction::Spill => body == BodyView::Memory(content),
            WriteAction::OnDisk { set_len } => {
                let after = file_after_write(disk, set_len, offset, data);
                after == written(content, offset as int, data) && after.len() == (if offset
                    + data.len() > body.len() {
                    offset + data.len()
                } else {
                    body.len() as int
                })
            },
        },
{
    match write_action_of(body, offset, data.len() as int, memory_limit) {
        WriteAction::OnDisk { set_len } => {
            let after = file_after_write(disk, set_len, offset, data);
            assert(after =~= written(content, offset as int, data));
        },
        _ => {},
    }
}

/// What a read fetches from a file is the window of the content.
pub proof fn lemma_read_wherever_it_is(disk: Seq<u8>, len: u64, offset: u64, length: u32)
    requires
        disk.len() == len,
    ensures
        ({
            let span = read_span_of(len as int, offset, length);
            &&& span.eof == read_window(disk, offset as int, length as int).1
            &&& offset < len ==> offset + span.len <= len && disk.subrange(
                offset as int,
                offset + span.len,
            ) == read_window(disk, offset as int, length as int).0
            &&& offset >= len ==> span.len == 0
        }),
{
    let span = read_span_of(len as int, offset, length);
    if offset < len {
        assert(disk.subrange(offset as int, offset + span.len) =~= read_window(
            disk,
            offset as int,
            length as int,
        ).0);
    }
}

/// A write makes a content as long as it has to be, fills a gap with zeros, and puts the data where
/// it was asked to.
pub proof fn lemma_write_byte_by_byte(base: Seq<u8>, offset: int, data: Seq<u8>, i: int)
    requires
        0 <= offset,
    ensures
        written(base, offset, data).len() >= base.len(),
        written(base, offset, data).len() >= offset + data.len(),
        written(base, offset, data).len() == base.len() || written(base, offset, data).len() == offset
            + data.len(),
        offset <= i < offset + data.len() ==> written(base, offset, data)[i] == data[i - offset],
        0 <= i < base.len() && !(offset <= i < offset + data.len()) ==> written(base, offset, data)[i]
            == base[i],
        base.len() <= i < offset ==> written(base, offset, data)[i] == 0,
{
}

/// Cutting keeps the beginning of a content, and lengthening fills it up with zeros.
pub proof fn lemma_resized_byte_by_byte(base: Seq<u8>, n: int, i: int)
    requires
        0 <= n,
    ensures
        resized(base, n).len() == n,
        0 <= i < n && i < base.len() ==> resized(base, n)[i] == base[i],
        base.len() <= i < n ==> resized(base, n)[i] == 0,
        n == base.len() ==> resized(base, n) == base,
{
    if n == base.len() {
        assert(resized(base, n) =~= base);
    }
}

/// A read gives the bytes from the offset on, as many as were asked for or as there are, and tells
/// that the end was reached exactly where it was.
pub proof fn lemma_read_byte_by_byte(content: Seq<u8>, offset: int, length: int, i: int)
    requires
        0 <= offset,
        0 <= length,
    ensures
        ({
            let (data, eof) = read_window(content, offset, length);
            &&& eof <==> offset + length >= content.len()
            &&& offset + length <= content.len() ==> data.len() == length
            &&& offset <= content.len() < offset + length ==> data.len() == content.len() - offset
            &&& offset >= content.len() ==> data.len() == 0
            &&& 0 <= i < data.len() ==> data[i] == content[offset + i]
        }),
{
}

/// A handle that is only for reading is not written or cut, nor is one of a node that is gone; any
/// other has afterwards what was written.
pub proof fn lemma_writing_needs_a_handle_for_it(
    workspace_id: Seq<char>,
    node_id: Seq<char>,
    node: Option<NodeView>,
    mode: HandleMode,
    base: Seq<u8>,
    offset: u64,
    data: Seq<u8>,
    size: u64,
)
    ensures
        ({
            let w = write_handle_result(workspace_id, node_id, node, mode, base, offset, data);
            let t = truncate_handle_result(workspace_id, node_id, node, mode, base, size);
            &&& mode == HandleMode::Read ==> w is Err && t is Err
            &&& node is None ==> w is Err && t is Err
            &&& mode != HandleMode::Read && node is Some && offset <= usize::MAX ==> w == Ok::<
                Seq<u8>,
                ErrorView,
            >(written(base, offset as int, data))
            &&& mode != HandleMode::Read && node is Some && size <= usize::MAX ==> t == Ok::<
                Seq<u8>,
                ErrorView,
            >(resized(base, size as int))
            &&& mode != HandleMode::Read && node is None ==> w == Err::<Seq<u8>, ErrorView>(
                ErrorView::NodeIdNotFound { workspace_id, node_id },
            )
        }),
{
}

/// A content stays in memory as long as it fits, and is moved to a file once it does not; a file is
/// made longer before a write beyond its end.
pub proof fn lemma_where_a_write_goes(
    content: Seq<u8>,
    len: u64,
    path: Seq<char>,
    offset: u64,
    data_len: int,
    memory_limit: int,
)
    requires
        0 <= data_len,
        offset + data_len <= u64::MAX,
    ensures
        ({
            let m = write_action_of(BodyView::Memory(content), offset, data_len, memory_limit);
            let f = write_action_of(BodyView::Spilled { len, path }, offset, data_len, memory_limit);
            &&& offset + data_len <= memory_limit ==> m == WriteAction::InMemory
            &&& offset + data_len > memory_limit ==> m == WriteAction::Spill
            &&& offset + data_len <= len ==> f == (WriteAction::OnDisk { set_len: None })
            &&& offset + data_len > len ==> f == (WriteAction::OnDisk {
                set_len: Some((offset + data_len) as u64),
            })
        }),
        BodyView::empty() == BodyView::Memory(Seq::empty()),
        BodyView::Memory(content).len() == content.len(),
        (BodyView::Spilled { len, path }).len() == len,
{
}

/// What is read of a file lies within it, and is as much as was asked for where there is as much.
pub proof fn lemma_spans(len: int, offset: u64, length: u32)
    requires
        0 <= len <= u64::MAX,
    ensures
        ({
            let s = read_span_of(len, offset, length);
            &&& s.offset == offset
            &&& s.eof <==> offset + length >= len
            &&& offset + length <= len ==> s.len == length
            &&& offset < len < offset + length ==> s.len == len - offset
            &&& offset >= len ==> s.len == 0
        }),
{
}

/// A content is cut where it lies, but goes to a file where it would become too long for memory; a
/// handle that is only for reading is not written back.
pub proof fn lemma_where_a_cut_goes(
    body: &HandleBody,
    size: u64,
    memory_limit: usize,
    r: TruncateAction,
    mode: HandleMode,
    flush: Result<(), IndexError>,
)
    requires
        call_ensures(HandleBody::truncate_action, (body, size, memory_limit), r),
        call_ensures(check_flush_mode, (mode,), flush),
    ensures
        body@ is Memory && size <= memory_limit ==> r == TruncateAction::InMemory,
        body@ is Memory && size > memory_limit ==> r == TruncateAction::Spill,
        body@ is Spilled ==> r == TruncateAction::OnDisk,
        flush is Err <==> mode == HandleMode::Read,
{
}

/// What is written is read back, and what was cut is gone.
pub proof fn lemma_handles_hold_what_was_written(
    workspace_id: &str,
    node_id: &str,
    node: NodeRecord,
    base: &[u8],
    offset: u64,
    data: &[u8],
    w: Result<Vec<u8>, IndexError>,
    size: u64,
    t: Result<Vec<u8>, IndexError>,
)
    requires
        offset + data@.len() <= usize::MAX,
        size <= usize::MAX,
        call_ensures(
            write_handle,
            (workspace_id, node_id, Some(node), HandleMode::ReadWrite, base, offset, data),
            w,
        ),
        call_ensures(
            truncate_handle,
            (workspace_id, node_id, Some(node), HandleMode::Write, base, size),
            t,
        ),
    ensures
        w is Ok,
        w->Ok_0@.len() >= offset + data@.len(),
        forall|i: int| 0 <= i < data@.len() ==> #[trigger] w->Ok_0@[offset + i] == data@[i],
        forall|i: int|
            0 <= i < base@.len() && !(offset <= i < offset + data@.len()) ==> #[trigger] w->Ok_0@[i]
                == base@[i],
        t is Ok,
        t->Ok_0@.len() == size,
        forall|i: int| 0 <= i < size && i < base@.len() ==> #[trigger] t->Ok_0@[i] == base@[i],
{
}

/// A handle that is only for writing is not read, nor one of a node that is gone; any other gives
/// what stands from the offset on.
pub proof fn lemma_handles_that_are_read(
    workspace_id: &str,
    node_id: &str,
    node: Option<NodeRecord>,
    mode: HandleMode,
    content: &[u8],
    offset: u64,
    length: u32,
    r: Result<(Vec<u8>, bool), IndexError>,
)
    requires
        call_ensures(read_handle, (workspace_id, node_id, node, mode, content, offset, length), r),
    ensures
        r is Ok <==> mode != HandleMode::Write && node is Some,
        r is Ok ==> (r->Ok_0.1 <==> offset + length >= content@.len()),
        r is Ok && offset + length <= content@.len() ==> r->Ok_0.0@.len() == length,
        r is Ok ==> forall|i: int|
            0 <= i < r->Ok_0.0@.len() ==> #[trigger] r->Ok_0.0@[i] == content@[offset + i],
        r is Ok && offset < content@.len() && length > 0 ==> r->Ok_0.0@.len() > 0,
{
}

} // verus!

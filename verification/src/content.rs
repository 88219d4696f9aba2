//! What happens to the content of files: where it is put when nodes change, how it is copied, and
//! how it is sent out.
use crate::model::NodeKind;
use crate::paths::strip_slashes;
use crate::settings::{file_path_under, joined_file_path};
use crate::storage::{content_file_of, workspace_root_of};
use vstd::prelude::*;
use vstd::string::StringExecFns;

verus! {

// ---------------------------------------------------------------------------
// Changes to the tree
// ---------------------------------------------------------------------------

/// What is done to the files below a workspace's directory. A removal of what is not there is left
/// out.
#[derive(Debug, Clone, PartialEq, Eq)]
pub enum ContentAction {
    /// The directory that the path is in comes to be, with all above it.
    MakeParent(String),
    MakeDir(String),
    WriteEmpty(String),
    RemoveDir { path: String, overwritten: bool },
    RemoveFile { path: String, overwritten: bool },
    Rename { from: String, to: String },
}

#[verifier::ext_equal]
pub enum ContentActionView {
    MakeParent(Seq<char>),
    MakeDir(Seq<char>),
    WriteEmpty(Seq<char>),
    RemoveDir { path: Seq<char>, overwritten: bool },
    RemoveFile { path: Seq<char>, overwritten: bool },
    Rename { from: Seq<char>, to: Seq<char> },
}

impl View for ContentAction {
    type V = ContentActionView;

    open spec fn view(&self) -> ContentActionView {
        match *self {
            ContentAction::MakeParent(p) => ContentActionView::MakeParent(p@),
            ContentAction::MakeDir(p) => ContentActionView::MakeDir(p@),
            ContentAction::WriteEmpty(p) => ContentActionView::WriteEmpty(p@),
            ContentAction::RemoveDir { path, overwritten } => ContentActionView::RemoveDir {
                path: path@,
                overwritten,
            },
            ContentAction::RemoveFile { path, overwritten } => ContentActionView::RemoveFile {
                path: path@,
                overwritten,
            },
            ContentAction::Rename { from, to } => ContentActionView::Rename {
                from: from@,
                to: to@,
            },
        }
    }
}

pub open spec fn action_views(v: Seq<ContentAction>) -> Seq<ContentActionView> {
    v.map_values(|a: ContentAction| a@)
}

/// What is said of an action that failed. `place` is the file or directory that it was about.
pub open spec fn failure_of(action: ContentActionView, place: Seq<char>, error: Seq<char>) -> Seq<
    char,
> {
    match action {
        ContentActionView::MakeParent(_) => "failed creating parent directory "@ + place + ": "@
            + error,
        ContentActionView::MakeDir(_) => "failed creating content directory "@ + place + ": "@
            + error,
        ContentActionView::WriteEmpty(_) => "failed creating content file "@ + place + ": "@ + error,
        ContentActionView::RemoveDir { overwritten, .. } => if overwritten {
            "failed removing overwrite directory "@ + place + ": "@ + error
        } else {
            "failed removing content directory "@ + place + ": "@ + error
        },
        ContentActionView::RemoveFile { overwritten, .. } => if overwritten {
            "failed removing overwrite file "@ + place + ": "@ + error
        } else {
            "failed removing content file "@ + place + ": "@ + error
        },
        ContentActionView::Rename { to, .. } => "failed renaming content "@ + place + " -> "@ + to
            + ": "@ + error,
    }
}

impl ContentAction {
    pub fn failure(&self, place: &str, error: &str) -> (r: String)
        ensures
            r@ == failure_of(self@, place@, error@),
    {
        let mut r = match self {
            ContentAction::MakeParent(_) => "failed creating parent directory ".to_owned(),
            ContentAction::MakeDir(_) => "failed creating content directory ".to_owned(),
            ContentAction::WriteEmpty(_) => "failed creating content file ".to_owned(),
            ContentAction::RemoveDir { path: _, overwritten } => if *overwritten {
                "failed removing overwrite directory ".to_owned()
            } else {
                "failed removing content directory ".to_owned()
            },
            ContentAction::RemoveFile { path: _, overwritten } => if *overwritten {
                "failed removing overwrite file ".to_owned()
            } else {
                "failed removing content file ".to_owned()
            },
            ContentAction::Rename { from: _, to: _ } => "failed renaming content ".to_owned(),
        };
        r.append(place);
        if let ContentAction::Rename { from: _, to } = self {
            r.append(" -> ");
            r.append(to.as_str());
        }
        r.append(": ");
        r.append(error);
        r
    }
}

/// A file begins empty, in a directory that is there; a directory is made.
pub open spec fn created_content(root: Seq<char>, kind: NodeKind, path: Seq<char>) -> Seq<
    ContentActionView,
> {
    let place = joined_file_path(root, path);
    match kind {
        NodeKind::File => seq![
            ContentActionView::MakeParent(place),
            ContentActionView::WriteEmpty(place),
        ],
        NodeKind::Dir => seq![ContentActionView::MakeDir(place)],
    }
}

/// What a node that was made needs below its workspace's directory `root`.
pub fn create_content(root: &str, kind: NodeKind, path: &str) -> (r: Vec<ContentAction>)
    ensures
        action_views(r@) == created_content(root@, kind, path@),
{
    let place = file_path_under(root, path);
    let mut out: Vec<ContentAction> = Vec::new();
    match kind {
        NodeKind::File => {
            out.push(ContentAction::MakeParent(place.clone()));
            out.push(ContentAction::WriteEmpty(place));
        },
        NodeKind::Dir => {
            out.push(ContentAction::MakeDir(place));
        },
    }
    proof {
        assert(action_views(out@) =~= created_content(root@, kind, path@));
    }
    out
}

pub open spec fn removal(place: Seq<char>, kind: NodeKind, overwritten: bool) -> ContentActionView {
    match kind {
        NodeKind::Dir => ContentActionView::RemoveDir { path: place, overwritten },
        NodeKind::File => ContentActionView::RemoveFile { path: place, overwritten },
    }
}

fn removal_of(place: String, kind: NodeKind, overwritten: bool) -> (r: ContentAction)
    ensures
        r@ == removal(place@, kind, overwritten),
{
    match kind {
        NodeKind::Dir => ContentAction::RemoveDir { path: place, overwritten },
        NodeKind::File => ContentAction::RemoveFile { path: place, overwritten },
    }
}

/// What a node that was unlinked leaves to remove.
pub fn unlink_content(root: &str, kind: NodeKind, path: &str) -> (r: ContentAction)
    ensures
        r@ == removal(joined_file_path(root@, path@), kind, false),
{
    removal_of(file_path_under(root, path), kind, false)
}

/// What was in the way is removed, then the content moves.
pub open spec fn renamed_content(
    root: Seq<char>,
    from: Seq<char>,
    to: Seq<char>,
    in_the_way: Option<(NodeKind, Seq<char>)>,
) -> Seq<ContentActionView> {
    let target = joined_file_path(root, to);
    let cleared = match in_the_way {
        Some((kind, path)) => seq![removal(joined_file_path(root, path), kind, true)],
        None => Seq::empty(),
    };
    cleared + seq![
        ContentActionView::MakeParent(target),
        ContentActionView::Rename { from: joined_file_path(root, from), to: target },
    ]
}

pub open spec fn way_view(v: Option<(NodeKind, String)>) -> Option<(NodeKind, Seq<char>)> {
    match v {
        Some((k, p)) => Some((k, p@)),
        None => None,
    }
}

pub fn rename_content(
    root: &str,
    from: &str,
    to: &str,
    in_the_way: &Option<(NodeKind, String)>,
) -> (r: Vec<ContentAction>)
    ensures
        action_views(r@) == renamed_content(root@, from@, to@, way_view(*in_the_way)),
{
    let target = file_path_under(root, to);
    let mut out: Vec<ContentAction> = Vec::new();
    if let Some((kind, path)) = in_the_way {
        out.push(removal_of(file_path_under(root, path.as_str()), *kind, true));
    }
    out.push(ContentAction::MakeParent(target.clone()));
    out.push(ContentAction::Rename { from: file_path_under(root, from), to: target });
    proof {
        assert(action_views(out@) =~= renamed_content(root@, from@, to@, way_view(*in_the_way)));
    }
    out
}

proof fn lemma_nothing_to_strip(path: Seq<char>)
    requires
        path.len() == 0 || path[0] != '/',
    ensures
        strip_slashes(path) == path,
{
}

/// What is made, moved and removed for a node is what is written and read for it: the same file.
pub proof fn lemma_same_file(root: Seq<char>, path: Seq<char>)
    requires
        path.len() == 0 || path[0] != '/',
    ensures
        joined_file_path(root, path) == content_file_of(root, path),
{
    lemma_nothing_to_strip(path);
}

/// The places of two workspaces' contents differ where their ids do.
pub proof fn lemma_workspaces_apart(base: Seq<char>, a: Seq<char>, b: Seq<char>)
    requires
        workspace_root_of(base, a) is Ok,
        workspace_root_of(base, a) == workspace_root_of(base, b),
        a.len() > 0 && a[0] != '/',
        b.len() > 0 && b[0] != '/',
    ensures
        a == b,
{
    let p = joined_file_path(base, a);
    let k = p.len() - a.len();
    assert(p.skip(k) =~= a);
    let q = joined_file_path(base, b);
    assert(q.skip(q.len() - b.len()) =~= b);
}

// ---------------------------------------------------------------------------
// Copying
// ---------------------------------------------------------------------------

/// The least piece in which content is copied.
pub const MIN_COPY_BYTES: usize = 8192;

pub open spec fn copy_piece_of(remaining: u64, chunk: usize) -> int {
    let most = if chunk < MIN_COPY_BYTES {
        MIN_COPY_BYTES as int
    } else {
        chunk as int
    };
    if remaining < most {
        remaining as int
    } else {
        most
    }
}

/// How many bytes are copied next.
pub fn copy_piece(remaining: u64, chunk: usize) -> (r: usize)
    ensures
        r == copy_piece_of(remaining, chunk),
        remaining > 0 ==> 0 < r <= remaining,
{
    let most: usize = if chunk < MIN_COPY_BYTES {
        MIN_COPY_BYTES
    } else {
        chunk
    };
    if remaining < most as u64 {
        remaining as usize
    } else {
        most
    }
}

/// How much is copied in all, piece by piece.
pub open spec fn copied(remaining: u64, chunk: usize) -> int
    decreases remaining,
{
    let n = copy_piece_of(remaining, chunk);
    if remaining == 0 || n <= 0 || n > remaining {
        0
    } else {
        n + copied((remaining - n) as u64, chunk)
    }
}

/// The pieces make up the whole.
pub proof fn lemma_copy_is_whole(len: u64, chunk: usize)
    ensures
        copied(len, chunk) == len,
    decreases len,
{
    if len > 0 {
        lemma_copy_is_whole((len - copy_piece_of(len, chunk)) as u64, chunk);
    }
}

// ---------------------------------------------------------------------------
// Sending
// ---------------------------------------------------------------------------

/// A piece of a file as it is sent.
#[derive(Debug, Clone, PartialEq, Eq)]
pub struct GetFileChunk {
    pub data: Vec<u8>,
    pub eof: bool,
}

/// A file that is being sent: each piece is held back until it is known whether another follows.
#[derive(Debug, Clone, PartialEq, Eq)]
pub struct FileStream {
    pub pending: Option<Vec<u8>>,
    pub done: bool,
}

#[verifier::ext_equal]
pub struct StreamView {
    pub pending: Option<Seq<u8>>,
    pub done: bool,
}

impl View for FileStream {
    type V = StreamView;

    open spec fn view(&self) -> StreamView {
        StreamView {
            pending: match self.pending {
                Some(v) => Some(v@),
                None => None,
            },
            done: self.done,
        }
    }
}

impl StreamView {
    /// The stream and the piece that is sent once `piece` was read. An empty piece is the end of
    /// the file.
    pub open spec fn fed(self, piece: Seq<u8>) -> (StreamView, Option<(Seq<u8>, bool)>) {
        let ended = piece.len() == 0;
        let next = StreamView {
            pending: if ended {
                None
            } else {
                Some(piece)
            },
            done: ended,
        };
        match self.pending {
            Some(data) => (next, Some((data, ended))),
            None => (
                next,
                if ended {
                    Some((Seq::empty(), true))
                } else {
                    None
                },
            ),
        }
    }
}

pub open spec fn chunk_view(c: Option<GetFileChunk>) -> Option<(Seq<u8>, bool)> {
    match c {
        Some(c) => Some((c.data@, c.eof)),
        None => None,
    }
}

impl FileStream {
    pub fn new() -> (r: FileStream)
        ensures
            r@ == (StreamView { pending: None, done: false }),
    {
        FileStream { pending: None, done: false }
    }

    pub fn feed(&mut self, piece: Vec<u8>) -> (r: Option<GetFileChunk>)
        requires
            !old(self)@.done,
        ensures
            (final(self)@, chunk_view(r)) == old(self)@.fed(piece@),
    {
        let eof = piece.len() == 0;
        let held = self.pending.take();
        self.done = eof;
        if !eof {
            self.pending = Some(piece);
        }
        match held {
            Some(data) => Some(GetFileChunk { data, eof }),
            None => {
                if eof {
                    let data: Vec<u8> = Vec::new();
                    proof {
                        assert(data@ =~= Seq::empty());
                    }
                    Some(GetFileChunk { data, eof: true })
                } else {
                    None
                }
            },
        }
    }
}

/// The stream and all that was sent once these pieces were read.
pub open spec fn streamed(pieces: Seq<Seq<u8>>) -> (StreamView, Seq<(Seq<u8>, bool)>)
    decreases pieces.len(),
{
    if pieces.len() == 0 {
        (StreamView { pending: None, done: false }, Seq::empty())
    } else {
        let (s, out) = streamed(pieces.drop_last());
        let (t, chunk) = s.fed(pieces.last());
        (
            t,
            match chunk {
                Some(c) => out.push(c),
                None => out,
            },
        )
    }
}

pub open spec fn piece_bytes(pieces: Seq<Seq<u8>>) -> Seq<u8>
    decreases pieces.len(),
{
    if pieces.len() == 0 {
        Seq::empty()
    } else {
        piece_bytes(pieces.drop_last()) + pieces.last()
    }
}

pub open spec fn sent_bytes(out: Seq<(Seq<u8>, bool)>) -> Seq<u8>
    decreases out.len(),
{
    if out.len() == 0 {
        Seq::empty()
    } else {
        sent_bytes(out.drop_last()) + out.last().0
    }
}

proof fn lemma_streaming(pieces: Seq<Seq<u8>>)
    requires
        forall|i: int| 0 <= i < pieces.len() ==> (#[trigger] pieces[i]).len() > 0,
    ensures
        ({
            let (s, out) = streamed(pieces);
            &&& !s.done
            &&& s.pending is Some <==> pieces.len() > 0
            &&& piece_bytes(pieces) == sent_bytes(out) + match s.pending {
                Some(data) => data,
                None => Seq::empty(),
            }
            &&& forall|i: int| 0 <= i < out.len() ==> !(#[trigger] out[i]).1
        }),
    decreases pieces.len(),
{
    if pieces.len() > 0 {
        let before = pieces.drop_last();
        assert forall|i: int| 0 <= i < before.len() implies (#[trigger] before[i]).len() > 0 by {
            assert(before[i] == pieces[i]);
        }
        lemma_streaming(before);
        let (s, out) = streamed(before);
        assert(pieces.last() == pieces[pieces.len() - 1]);
        if s.pending is Some {
            let sent = out.push((s.pending->0, false));
            assert(sent.drop_last() =~= out);
        } else {
            assert(piece_bytes(pieces) =~= sent_bytes(out) + pieces.last());
        }
    } else {
        assert(piece_bytes(pieces) =~= sent_bytes(streamed(pieces).1) + Seq::<u8>::empty());
    }
}

/// What is sent of a file is the file, and exactly the last piece says that it is the last.
pub proof fn lemma_stream_is_file(pieces: Seq<Seq<u8>>)
    requires
        forall|i: int| 0 <= i < pieces.len() ==> (#[trigger] pieces[i]).len() > 0,
    ensures
        ({
            let (s, out) = streamed(pieces.push(Seq::empty()));
            &&& s.done
            &&& sent_bytes(out) == piece_bytes(pieces)
            &&& out.len() > 0
            &&& out.last().1
            &&& forall|i: int| 0 <= i < out.len() - 1 ==> !(#[trigger] out[i]).1
        }),
{
    lemma_streaming(pieces);
    let all = pieces.push(Seq::empty());
    assert(all.drop_last() =~= pieces);
    let (s, out) = streamed(pieces);
    let sent = streamed(all).1;
    assert(sent.drop_last() =~= out);
    assert(sent_bytes(sent) =~= piece_bytes(pieces));
}

/// A new file is written empty after the directory that it lies in was made; a new directory is
/// made. Nothing else is touched.
pub proof fn lemma_what_creating_does(root: Seq<char>, path: Seq<char>)
    ensures
        ({
            let place = joined_file_path(root, path);
            let file = created_content(root, NodeKind::File, path);
            let dir = created_content(root, NodeKind::Dir, path);
            &&& file.len() == 2
            &&& file[0] == ContentActionView::MakeParent(place)
            &&& file[1] == ContentActionView::WriteEmpty(place)
            &&& dir.len() == 1
            &&& dir[0] == ContentActionView::MakeDir(place)
        }),
{
}

/// A file is removed as a file and a directory as a directory, at its own place.
pub proof fn lemma_what_removing_does(place: Seq<char>, overwritten: bool)
    ensures
        removal(place, NodeKind::File, overwritten) == (ContentActionView::RemoveFile {
            path: place,
            overwritten,
        }),
        removal(place, NodeKind::Dir, overwritten) == (ContentActionView::RemoveDir {
            path: place,
            overwritten,
        }),
{
}

/// What lies in the way of a rename is removed first, then the directory for the new place is made,
/// and last of all the content moves there from the old one.
pub proof fn lemma_what_renaming_does(
    root: Seq<char>,
    from: Seq<char>,
    to: Seq<char>,
    kind: NodeKind,
    path: Seq<char>,
)
    ensures
        ({
            let free = renamed_content(root, from, to, None);
            let taken = renamed_content(root, from, to, Some((kind, path)));
            let target = joined_file_path(root, to);
            let moved = ContentActionView::Rename { from: joined_file_path(root, from), to: target };
            &&& free.len() == 2
            &&& free[0] == ContentActionView::MakeParent(target)
            &&& free[1] == moved
            &&& taken.len() == 3
            &&& taken[0] == removal(joined_file_path(root, path), kind, true)
            &&& taken[1] == ContentActionView::MakeParent(target)
            &&& taken[2] == moved
        }),
{
}

/// A piece is as large as it is set, but not below eight kilobytes, and never more than what is
/// left.
pub proof fn lemma_pieces_of_a_copy(remaining: u64, chunk: usize)
    ensures
        copy_piece_of(remaining, chunk) <= remaining,
        copy_piece_of(remaining, chunk) < remaining ==> copy_piece_of(remaining, chunk) == (if chunk
            < 8192 {
            8192
        } else {
            chunk as int
        }),
{
}

/// A piece is sent once the next one is there, so that the last can be told from the others.
pub proof fn lemma_piece_waits_for_the_next(data: Seq<u8>, piece: Seq<u8>)
    requires
        piece.len() > 0,
    ensures
        ({
            let waiting = StreamView { pending: Some(data), done: false };
            let first = StreamView { pending: None, done: false };
            &&& waiting.fed(piece) == (
                StreamView { pending: Some(piece), done: false },
                Some((data, false)),
            )
            &&& waiting.fed(Seq::empty()) == (
                StreamView { pending: None, done: true },
                Some((data, true)),
            )
            &&& first.fed(piece) == (
                StreamView { pending: Some(piece), done: false },
                None::<(Seq<u8>, bool)>,
            )
            &&& first.fed(Seq::empty()) == (
                StreamView { pending: None, done: true },
                Some((Seq::<u8>::empty(), true)),
            )
        }),
{
}

/// What could not be done is told by what was to be done, where, and why not.
pub proof fn lemma_failures_name_what_failed(
    path: Seq<char>,
    to: Seq<char>,
    place: Seq<char>,
    error: Seq<char>,
)
    ensures
        failure_of(ContentActionView::MakeParent(path), place, error)
            == "failed creating parent directory "@ + place + ": "@ + error,
        failure_of(ContentActionView::MakeDir(path), place, error)
            == "failed creating content directory "@ + place + ": "@ + error,
        failure_of(ContentActionView::WriteEmpty(path), place, error)
            == "failed creating content file "@ + place + ": "@ + error,
        failure_of(ContentActionView::RemoveDir { path, overwritten: false }, place, error)
            == "failed removing content directory "@ + place + ": "@ + error,
        failure_of(ContentActionView::RemoveDir { path, overwritten: true }, place, error)
            == "failed removing overwrite directory "@ + place + ": "@ + error,
        failure_of(ContentActionView::RemoveFile { path, overwritten: false }, place, error)
            == "failed removing content file "@ + place + ": "@ + error,
        failure_of(ContentActionView::RemoveFile { path, overwritten: true }, place, error)
            == "failed removing overwrite file "@ + place + ": "@ + error,
        failure_of(ContentActionView::Rename { from: path, to }, place, error)
            == "failed renaming content "@ + place + " -> "@ + to + ": "@ + error,
{
}

/// A content is removed from where it lies, as what it is.
pub proof fn lemma_content_is_removed(root: &str, kind: NodeKind, path: &str, r: ContentAction)
    requires
        call_ensures(unlink_content, (root, kind, path), r),
    ensures
        kind == NodeKind::File ==> r@ == (ContentActionView::RemoveFile {
            path: joined_file_path(root@, path@),
            overwritten: false,
        }),
        kind == NodeKind::Dir ==> r@ == (ContentActionView::RemoveDir {
            path: joined_file_path(root@, path@),
            overwritten: false,
        }),
{
}

} // verus!

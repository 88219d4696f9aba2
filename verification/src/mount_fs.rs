//! What a mount remembers: which inode number stands for which node, the directories that are
//! being read, and the open files.
use crate::mount_attrs::{
    errno_of,
    fuse_attr_of,
    proto_attrs_to_fuse,
    request_offset,
    status_to_errno,
    time_or_now_to_nanos,
    Errno,
    FileAttr,
};
use crate::rpc::{ProtoAttrs, ProtoHandleMode};
use crate::status::Code;
use crate::text::same_text;
use std::collections::HashMap;
use vstd::prelude::*;

verus! {

broadcast use vstd::std_specs::hash::group_hash_axioms;

/// The number of the mount's root.
pub const ROOT_INO: u64 = 1;

/// How many entries of a directory are asked for at a time.
pub const READDIR_PAGE_LIMIT: u32 = 256;

/// For how many seconds the kernel may keep what it was told.
pub const TTL_SECONDS: u64 = 1;

#[derive(Debug, Clone)]
pub struct InodeEntry {
    pub workspace_id: String,
    pub node_id: String,
    pub parent_ino: u64,
    pub attr: FileAttr,
}

#[verifier::ext_equal]
pub struct InodeView {
    pub workspace_id: Seq<char>,
    pub node_id: Seq<char>,
    pub parent_ino: u64,
    pub attr: FileAttr,
}

impl View for InodeEntry {
    type V = InodeView;

    open spec fn view(&self) -> InodeView {
        InodeView {
            workspace_id: self.workspace_id@,
            node_id: self.node_id@,
            parent_ino: self.parent_ino,
            attr: self.attr,
        }
    }
}

/// A file that was opened on the server.
#[derive(Debug, Clone)]
pub struct RemoteHandle {
    pub workspace_id: String,
    pub handle_id: String,
}

#[verifier::ext_equal]
pub struct RemoteHandleView {
    pub workspace_id: Seq<char>,
    pub handle_id: Seq<char>,
}

impl View for RemoteHandle {
    type V = RemoteHandleView;

    open spec fn view(&self) -> RemoteHandleView {
        RemoteHandleView { workspace_id: self.workspace_id@, handle_id: self.handle_id@ }
    }
}

/// A line of a directory as the kernel gets it.
#[derive(Debug)]
pub struct DirRow {
    pub ino: u64,
    pub name: String,
    pub attr: FileAttr,
}

#[verifier::ext_equal]
pub struct RowView {
    pub ino: u64,
    pub name: Seq<char>,
    pub attr: FileAttr,
}

impl View for DirRow {
    type V = RowView;

    open spec fn view(&self) -> RowView {
        RowView { ino: self.ino, name: self.name@, attr: self.attr }
    }
}

/// What is known of a directory that is being read.
#[derive(Debug)]
pub struct DirCache {
    pub rows: Vec<DirRow>,
    pub next_cursor: String,
    pub complete: bool,
}

#[verifier::ext_equal]
pub struct DirView {
    pub rows: Seq<RowView>,
    pub next_cursor: Seq<char>,
    pub complete: bool,
}

impl View for DirCache {
    type V = DirView;

    open spec fn view(&self) -> DirView {
        DirView {
            rows: self.rows@.map_values(|r: DirRow| r@),
            next_cursor: self.next_cursor@,
            complete: self.complete,
        }
    }
}

/// The number that was given to a node.
#[derive(Debug)]
pub struct NodeNumber {
    pub node_id: String,
    pub ino: u64,
}

/// The number of a node, from the list of the numbers that were given.
pub open spec fn number_of(given: Seq<NodeNumber>, node_id: Seq<char>) -> Option<u64>
    decreases given.len(),
{
    if given.len() == 0 {
        None
    } else if given.last().node_id@ == node_id {
        Some(given.last().ino)
    } else {
        number_of(given.drop_last(), node_id)
    }
}

#[derive(Debug)]
pub struct ScryFuseFs {
    pub workspace_id: String,
    pub inodes: HashMap<u64, InodeEntry>,
    pub node_to_ino: Vec<NodeNumber>,
    pub dir_cache: HashMap<u64, DirCache>,
    pub handles: HashMap<u64, RemoteHandle>,
    pub next_ino: u64,
    pub next_fh: u64,
}

#[verifier::ext_equal]
pub struct FsView {
    pub workspace_id: Seq<char>,
    pub inodes: Map<u64, InodeView>,
    pub numbers: Map<Seq<char>, u64>,
    pub dirs: Map<u64, DirView>,
    pub handles: Map<u64, RemoteHandleView>,
    pub next_ino: u64,
    pub next_fh: u64,
}

pub open spec fn numbers_map(given: Seq<NodeNumber>) -> Map<Seq<char>, u64> {
    Map::new(|id: Seq<char>| number_of(given, id) is Some, |id: Seq<char>| number_of(given, id)->0)
}

impl View for ScryFuseFs {
    type V = FsView;

    open spec fn view(&self) -> FsView {
        FsView {
            workspace_id: self.workspace_id@,
            inodes: self.inodes@.map_values(|e: InodeEntry| e@),
            numbers: numbers_map(self.node_to_ino@),
            dirs: self.dir_cache@.map_values(|d: DirCache| d@),
            handles: self.handles@.map_values(|h: RemoteHandle| h@),
            next_ino: self.next_ino,
            next_fh: self.next_fh,
        }
    }
}

/// The next number; the largest is followed by itself.
pub open spec fn successor(n: u64) -> u64 {
    if n < u64::MAX {
        (n + 1) as u64
    } else {
        n
    }
}

impl FsView {
    pub open spec fn knows(self, node_id: Seq<char>) -> bool {
        self.numbers.contains_key(node_id)
    }

    /// The number that `node_id` has, or else the one that it would be given.
    pub open spec fn ino_for(self, node_id: Seq<char>) -> u64 {
        if self.knows(node_id) {
            self.numbers[node_id]
        } else {
            self.next_ino
        }
    }

    /// The state once a node was met: a known one has its parent and attributes renewed, a new one
    /// is given a number.
    pub open spec fn met(
        self,
        workspace_id: Seq<char>,
        node_id: Seq<char>,
        parent_ino: u64,
        attr: FileAttr,
    ) -> FsView {
        let ino = self.ino_for(node_id);
        let attr = FileAttr { ino, ..attr };
        if self.knows(node_id) {
            if self.inodes.contains_key(ino) {
                FsView {
                    inodes: self.inodes.insert(
                        ino,
                        InodeView { parent_ino, attr, ..self.inodes[ino] },
                    ),
                    ..self
                }
            } else {
                self
            }
        } else {
            FsView {
                inodes: self.inodes.insert(
                    ino,
                    InodeView { workspace_id, node_id, parent_ino, attr },
                ),
                numbers: self.numbers.insert(node_id, ino),
                next_ino: successor(ino),
                ..self
            }
        }
    }

    pub open spec fn with_attr(self, ino: u64, attr: FileAttr) -> FsView {
        if self.inodes.contains_key(ino) {
            FsView {
                inodes: self.inodes.insert(ino, InodeView { attr, ..self.inodes[ino] }),
                ..self
            }
        } else {
            self
        }
    }

    pub open spec fn forgetting_dir(self, ino: u64) -> FsView {
        FsView { dirs: self.dirs.remove(ino), ..self }
    }

    pub open spec fn with_handle(self, handle: RemoteHandleView) -> FsView {
        FsView {
            handles: self.handles.insert(self.next_fh, handle),
            next_fh: successor(self.next_fh),
            ..self
        }
    }

    /// The numbers are in order: each known node has an inode of its own, each inode is that of the
    /// node that has its number, and the numbers still to be given are new.
    pub open spec fn in_order(self) -> bool {
        &&& forall|id: Seq<char>| #[trigger]
            self.numbers.contains_key(id) ==> {
                &&& self.inodes.contains_key(self.numbers[id])
                &&& self.inodes[self.numbers[id]].node_id == id
            }
        &&& forall|i: u64| #[trigger]
            self.inodes.contains_key(i) ==> {
                &&& self.inodes[i].attr.ino == i
                &&& self.numbers.contains_key(self.inodes[i].node_id)
                &&& self.numbers[self.inodes[i].node_id] == i
                &&& i < self.next_ino
            }
    }
}

impl ScryFuseFs {
    /// A mount that knows nothing yet.
    pub fn new(workspace_id: &str) -> (r: ScryFuseFs)
        ensures
            r@ == (FsView {
                workspace_id: workspace_id@,
                inodes: Map::empty(),
                numbers: Map::empty(),
                dirs: Map::empty(),
                handles: Map::empty(),
                next_ino: 2,
                next_fh: 1,
            }),
    {
        let r = ScryFuseFs {
            workspace_id: workspace_id.to_owned(),
            inodes: HashMap::new(),
            node_to_ino: Vec::new(),
            dir_cache: HashMap::new(),
            handles: HashMap::new(),
            next_ino: 2,
            next_fh: 1,
        };
        proof {
            assert(r@.inodes =~= Map::empty());
            assert(r@.numbers =~= Map::empty());
            assert(r@.dirs =~= Map::empty());
            assert(r@.handles =~= Map::empty());
        }
        r
    }

    fn number(&self, node_id: &str) -> (r: Option<u64>)
        ensures
            r == number_of(self.node_to_ino@, node_id@),
    {
        let mut i: usize = self.node_to_ino.len();
        proof {
            assert(self.node_to_ino@.take(i as int) =~= self.node_to_ino@);
        }
        while i > 0
            invariant
                i <= self.node_to_ino@.len(),
                number_of(self.node_to_ino@.take(i as int), node_id@) == number_of(
                    self.node_to_ino@,
                    node_id@,
                ),
            decreases i,
        {
            let ghost t = self.node_to_ino@.take(i as int);
            proof {
                assert(t.drop_last() =~= self.node_to_ino@.take(i - 1));
                assert(t.last() == self.node_to_ino@[i - 1]);
            }
            if same_text(self.node_to_ino[i - 1].node_id.as_str(), node_id) {
                return Some(self.node_to_ino[i - 1].ino);
            }
            i = i - 1;
        }
        None
    }

    pub fn entry(&self, ino: u64) -> (r: Option<&InodeEntry>)
        ensures
            match r {
                Some(e) => self@.inodes.contains_key(ino) && self@.inodes[ino] == e@,
                None => !self@.inodes.contains_key(ino),
            },
    {
        self.inodes.get(&ino)
    }

    pub fn handle(&self, fh: u64) -> (r: Result<&RemoteHandle, Errno>)
        ensures
            match r {
                Ok(h) => self@.handles.contains_key(fh) && self@.handles[fh] == h@,
                Err(e) => !self@.handles.contains_key(fh) && e == Errno::NoEntry,
            },
    {
        match self.handles.get(&fh) {
            Some(h) => Ok(h),
            None => Err(Errno::NoEntry),
        }
    }

    pub fn upsert_inode(
        &mut self,
        workspace_id: &str,
        node_id: &str,
        parent_ino: u64,
        attr: FileAttr,
    ) -> (r: u64)
        ensures
            r == old(self)@.ino_for(node_id@),
            final(self)@ == old(self)@.met(workspace_id@, node_id@, parent_ino, attr),
    {
        let ghost before = self@;
        if let Some(ino) = self.number(node_id) {
            proof {
                assert(before.numbers.contains_key(node_id@));
            }
            let attr = FileAttr { ino, ..attr };
            let ghost inodes = self.inodes@;
            match self.inodes.remove(&ino) {
                Some(e) => {
                    let renewed = InodeEntry {
                        workspace_id: e.workspace_id,
                        node_id: e.node_id,
                        parent_ino,
                        attr,
                    };
                    self.inodes.insert(ino, renewed);
                    proof {
                        assert(self.inodes@ =~= inodes.insert(ino, renewed));
                        assert(self@.inodes =~= before.inodes.insert(ino, renewed@));
                    }
                },
                None => {
                    proof {
                        assert(self.inodes@ =~= inodes);
                    }
                },
            }
            return ino;
        }
        let ino: u64 = self.next_ino;
        self.next_ino = self.next_ino.saturating_add(1);
        let attr = FileAttr { ino, ..attr };
        let ghost given = self.node_to_ino@;
        let number = NodeNumber { node_id: node_id.to_owned(), ino };
        let ghost g_number = number;
        self.node_to_ino.push(number);
        let fresh = InodeEntry {
            workspace_id: workspace_id.to_owned(),
            node_id: node_id.to_owned(),
            parent_ino,
            attr,
        };
        let ghost g_fresh = fresh;
        self.inodes.insert(ino, fresh);
        proof {
            assert(given.push(g_number).drop_last() =~= given);
            assert(self@.numbers =~= before.numbers.insert(node_id@, ino));
            assert(self@.inodes =~= before.inodes.insert(ino, g_fresh@));
        }
        ino
    }

    pub fn alloc_fh(&mut self, handle: RemoteHandle) -> (r: u64)
        ensures
            r == old(self)@.next_fh,
            final(self)@ == old(self)@.with_handle(handle@),
    {
        let ghost before = self@;
        let fh: u64 = self.next_fh;
        self.next_fh = self.next_fh.saturating_add(1);
        self.handles.insert(fh, handle);
        proof {
            assert(self@.handles =~= before.handles.insert(fh, handle@));
        }
        fh
    }

    /// The handle is gone once the server has released it.
    pub fn release_handle(&mut self, fh: u64)
        ensures
            final(self)@ == (FsView { handles: old(self)@.handles.remove(fh), ..old(self)@ }),
    {
        let ghost before = self@;
        self.handles.remove(&fh);
        proof {
            assert(self@.handles =~= before.handles.remove(fh));
        }
    }

    pub fn invalidate_dir_cache(&mut self, ino: u64)
        ensures
            final(self)@ == old(self)@.forgetting_dir(ino),
    {
        let ghost before = self@;
        self.dir_cache.remove(&ino);
        proof {
            assert(self@.dirs =~= before.dirs.remove(ino));
        }
    }

    fn renew_attr(&mut self, ino: u64, attr: FileAttr)
        ensures
            final(self)@ == old(self)@.with_attr(ino, attr),
    {
        let ghost before = self@;
        let ghost inodes = self.inodes@;
        match self.inodes.remove(&ino) {
            Some(e) => {
                let renewed = InodeEntry {
                    workspace_id: e.workspace_id,
                    node_id: e.node_id,
                    parent_ino: e.parent_ino,
                    attr,
                };
                self.inodes.insert(ino, renewed);
                proof {
                    assert(self.inodes@ =~= inodes.insert(ino, renewed));
                    assert(self@.inodes =~= before.inodes.insert(ino, renewed@));
                }
            },
            None => {
                proof {
                    assert(self.inodes@ =~= inodes);
                }
            },
        }
    }
}

// ---------------------------------------------------------------------------
// Starting
// ---------------------------------------------------------------------------

/// What to say of a root that could not be resolved, where there is more to say than the answer.
pub fn root_failure_hint(code: Code) -> (r: Option<&'static str>)
    ensures
        match r {
            Some(t) => code == Code::Unauthenticated && t@
                == "resolve root path failed: unauthenticated (hint: pass --auth-token or --auth-token-file)"@,
            None => code != Code::Unauthenticated,
        },
{
    match code {
        Code::Unauthenticated => Some(
            "resolve root path failed: unauthenticated (hint: pass --auth-token or --auth-token-file)",
        ),
        _ => None,
    }
}

/// The workspace has a root.
pub fn check_root(found: bool, node_id: &str) -> (r: Result<(), &'static str>)
    ensures
        match r {
            Ok(_) => found && node_id@.len() > 0,
            Err(e) => (!found || node_id@.len() == 0) && e@ == "workspace root does not exist"@,
        },
{
    if !found || node_id.is_empty() {
        return Err("workspace root does not exist");
    }
    Ok(())
}

impl FsView {
    pub open spec fn rooted(self, node_id: Seq<char>, attr: FileAttr) -> FsView {
        FsView {
            inodes: self.inodes.insert(
                ROOT_INO,
                InodeView {
                    workspace_id: self.workspace_id,
                    node_id,
                    parent_ino: ROOT_INO,
                    attr,
                },
            ),
            numbers: self.numbers.insert(node_id, ROOT_INO),
            ..self
        }
    }
}

impl ScryFuseFs {
    /// The root takes its place: it is its own parent.
    pub fn bootstrap_root(&mut self, node_id: &str, attrs: Option<&ProtoAttrs>) -> (r: Result<
        (),
        &'static str,
    >)
        ensures
            match attrs {
                Some(a) => r is Ok && final(self)@ == old(self)@.rooted(
                    node_id@,
                    fuse_attr_of(ROOT_INO, *a),
                ),
                None => r is Err && r->Err_0@ == "missing root attrs in response"@ && final(self)@
                    == old(self)@,
            },
    {
        let ghost before = self@;
        let a = match attrs {
            Some(a) => a,
            None => {
                return Err("missing root attrs in response");
            },
        };
        let root = InodeEntry {
            workspace_id: self.workspace_id.clone(),
            node_id: node_id.to_owned(),
            parent_ino: ROOT_INO,
            attr: proto_attrs_to_fuse(ROOT_INO, a),
        };
        let ghost g_root = root;
        self.inodes.insert(ROOT_INO, root);
        let ghost given = self.node_to_ino@;
        let number = NodeNumber { node_id: node_id.to_owned(), ino: ROOT_INO };
        let ghost g_number = number;
        self.node_to_ino.push(number);
        proof {
            assert(given.push(g_number).drop_last() =~= given);
            assert(self@.numbers =~= before.numbers.insert(node_id@, ROOT_INO));
            assert(self@.inodes =~= before.inodes.insert(ROOT_INO, g_root@));
        }
        Ok(())
    }

    /// The inode that a request is about.
    pub fn known_entry(&self, ino: u64) -> (r: Result<&InodeEntry, Errno>)
        ensures
            match r {
                Ok(e) => self@.inodes.contains_key(ino) && self@.inodes[ino] == e@,
                Err(e) => !self@.inodes.contains_key(ino) && e == Errno::NoEntry,
            },
    {
        match self.entry(ino) {
            Some(e) => Ok(e),
            None => Err(Errno::NoEntry),
        }
    }
}

// ---------------------------------------------------------------------------
// What the server's answers change
// ---------------------------------------------------------------------------

/// The attributes that the kernel is told of a node that the server answered with.
pub open spec fn met_reply(fs: FsView, ino: u64) -> Result<FileAttr, Errno> {
    if fs.inodes.contains_key(ino) {
        Ok(fs.inodes[ino].attr)
    } else {
        Err(Errno::Io)
    }
}

impl FsView {
    /// A node was made or found in the directory `parent`.
    pub open spec fn met_in(
        self,
        workspace_id: Seq<char>,
        node_id: Seq<char>,
        parent: u64,
        attrs: ProtoAttrs,
    ) -> FsView {
        self.met(workspace_id, node_id, parent, fuse_attr_of(0, attrs))
    }

    /// A node was moved.
    pub open spec fn moved(self, node_id: Seq<char>, parent: u64, new_parent: u64) -> FsView {
        let f = if self.knows(node_id) {
            let ino = self.numbers[node_id];
            let g = if self.inodes.contains_key(ino) {
                FsView {
                    inodes: self.inodes.insert(
                        ino,
                        InodeView { parent_ino: new_parent, ..self.inodes[ino] },
                    ),
                    ..self
                }
            } else {
                self
            };
            g.forgetting_dir(ino)
        } else {
            self
        };
        f.forgetting_dir(parent).forgetting_dir(new_parent)
    }
}

impl ScryFuseFs {
    fn attr_of(&self, ino: u64) -> (r: Result<FileAttr, Errno>)
        ensures
            r == met_reply(self@, ino),
    {
        match self.entry(ino) {
            Some(e) => Ok(e.attr),
            None => Err(Errno::Io),
        }
    }

    /// The answer to a look-up in the directory `parent`.
    pub fn finish_lookup(
        &mut self,
        workspace_id: &str,
        parent: u64,
        node_id: &str,
        attrs: Option<&ProtoAttrs>,
    ) -> (r: Result<FileAttr, Errno>)
        ensures
            match attrs {
                Some(a) => {
                    &&& final(self)@ == old(self)@.met_in(workspace_id@, node_id@, parent, *a)
                    &&& r == met_reply(final(self)@, old(self)@.ino_for(node_id@))
                },
                None => r == Err::<FileAttr, Errno>(Errno::Io) && final(self)@ == old(self)@,
            },
    {
        match attrs {
            Some(a) => {
                let ino: u64 = self.upsert_inode(
                    workspace_id,
                    node_id,
                    parent,
                    proto_attrs_to_fuse(0, a),
                );
                self.attr_of(ino)
            },
            None => Err(Errno::Io),
        }
    }

    /// A node was made in the directory `parent`, which has to be read anew.
    pub fn finish_create(
        &mut self,
        workspace_id: &str,
        parent: u64,
        node_id: &str,
        attrs: Option<&ProtoAttrs>,
    ) -> (r: Result<u64, Errno>)
        ensures
            match attrs {
                Some(a) => {
                    &&& r == Ok::<u64, Errno>(old(self)@.ino_for(node_id@))
                    &&& final(self)@ == old(self)@.met_in(
                        workspace_id@,
                        node_id@,
                        parent,
                        *a,
                    ).forgetting_dir(parent)
                },
                None => r == Err::<u64, Errno>(Errno::Io) && final(self)@ == old(self)@,
            },
    {
        match attrs {
            Some(a) => {
                let ino: u64 = self.upsert_inode(
                    workspace_id,
                    node_id,
                    parent,
                    proto_attrs_to_fuse(0, a),
                );
                self.invalidate_dir_cache(parent);
                Ok(ino)
            },
            None => Err(Errno::Io),
        }
    }

    /// The answer to a directory that was made.
    pub fn finish_mkdir(
        &mut self,
        workspace_id: &str,
        parent: u64,
        node_id: &str,
        attrs: Option<&ProtoAttrs>,
    ) -> (r: Result<FileAttr, Errno>)
        ensures
            match attrs {
                Some(a) => {
                    &&& final(self)@ == old(self)@.met_in(
                        workspace_id@,
                        node_id@,
                        parent,
                        *a,
                    ).forgetting_dir(parent)
                    &&& r == met_reply(final(self)@, old(self)@.ino_for(node_id@))
                },
                None => r == Err::<FileAttr, Errno>(Errno::Io) && final(self)@ == old(self)@,
            },
    {
        match self.finish_create(workspace_id, parent, node_id, attrs) {
            Ok(ino) => self.attr_of(ino),
            Err(e) => Err(e),
        }
    }

    /// A file was opened on the server: it gets a number for the kernel.
    pub fn finish_open(&mut self, workspace_id: &str, handle_id: &str) -> (r: u64)
        ensures
            r == old(self)@.next_fh,
            final(self)@ == old(self)@.with_handle(
                RemoteHandleView { workspace_id: workspace_id@, handle_id: handle_id@ },
            ),
    {
        self.alloc_fh(
            RemoteHandle {
                workspace_id: workspace_id.to_owned(),
                handle_id: handle_id.to_owned(),
            },
        )
    }

    /// The answer to a file that was made and opened.
    pub fn finish_create_open(&mut self, workspace_id: &str, ino: u64, handle_id: &str) -> (r:
        Result<(FileAttr, u64), Errno>)
        ensures
            final(self)@ == old(self)@.with_handle(
                RemoteHandleView { workspace_id: workspace_id@, handle_id: handle_id@ },
            ),
            match met_reply(old(self)@, ino) {
                Ok(a) => r == Ok::<(FileAttr, u64), Errno>((a, old(self)@.next_fh)),
                Err(e) => r == Err::<(FileAttr, u64), Errno>(e),
            },
    {
        let fh: u64 = self.finish_open(workspace_id, handle_id);
        match self.attr_of(ino) {
            Ok(a) => Ok((a, fh)),
            Err(e) => Err(e),
        }
    }

    /// The answer to a question for attributes, which are remembered.
    pub fn finish_getattr(&mut self, ino: u64, attrs: Option<&ProtoAttrs>) -> (r: Result<
        FileAttr,
        Errno,
    >)
        ensures
            match attrs {
                Some(a) => {
                    &&& r == Ok::<FileAttr, Errno>(fuse_attr_of(ino, *a))
                    &&& final(self)@ == old(self)@.with_attr(ino, fuse_attr_of(ino, *a))
                },
                None => r == Err::<FileAttr, Errno>(Errno::Io) && final(self)@ == old(self)@,
            },
    {
        match attrs {
            Some(a) => {
                let attr = proto_attrs_to_fuse(ino, a);
                self.renew_attr(ino, attr);
                Ok(attr)
            },
            None => Err(Errno::Io),
        }
    }

    /// A node was moved from the directory `parent` to `new_parent`.
    pub fn finish_rename(&mut self, node_id: &str, parent: u64, new_parent: u64)
        ensures
            final(self)@ == old(self)@.moved(node_id@, parent, new_parent),
    {
        let ghost before = self@;
        if let Some(ino) = self.number(node_id) {
            proof {
                assert(before.numbers.contains_key(node_id@));
            }
            let ghost inodes = self.inodes@;
            match self.inodes.remove(&ino) {
                Some(e) => {
                    let renewed = InodeEntry {
                        workspace_id: e.workspace_id,
                        node_id: e.node_id,
                        parent_ino: new_parent,
                        attr: e.attr,
                    };
                    self.inodes.insert(ino, renewed);
                    proof {
                        assert(self.inodes@ =~= inodes.insert(ino, renewed));
                        assert(self@.inodes =~= before.inodes.insert(ino, renewed@));
                    }
                },
                None => {
                    proof {
                        assert(self.inodes@ =~= inodes);
                    }
                },
            }
            self.invalidate_dir_cache(ino);
        }
        self.invalidate_dir_cache(parent);
        self.invalidate_dir_cache(new_parent);
    }
}

// ---------------------------------------------------------------------------
// Reading directories
// ---------------------------------------------------------------------------

/// An entry of a directory as the server sent it.
#[derive(Debug)]
pub struct RemoteEntry {
    pub name: String,
    pub node_id: String,
    pub attrs: Option<ProtoAttrs>,
}

/// What reading a directory does next.
#[derive(Debug, Clone, Copy, PartialEq, Eq, Structural)]
pub enum DirStep {
    /// Ask the server for the next page.
    Fetch,
    /// Hand out the row at this place.
    Row(usize),
    End,
}

/// A directory of which nothing was fetched yet: itself and its parent.
pub open spec fn first_rows(fs: FsView, ino: u64) -> DirView {
    let entry = fs.inodes[ino];
    DirView {
        rows: seq![
            RowView { ino, name: "."@, attr: entry.attr },
            RowView {
                ino: entry.parent_ino,
                name: ".."@,
                attr: if fs.inodes.contains_key(entry.parent_ino) {
                    fs.inodes[entry.parent_ino].attr
                } else {
                    entry.attr
                },
            },
        ],
        next_cursor: Seq::empty(),
        complete: false,
    }
}

/// The mount and the directory's rows once these entries of the directory were met. An entry
/// without attributes is passed over.
pub open spec fn entries_met(
    fs: FsView,
    workspace_id: Seq<char>,
    dir_ino: u64,
    rows: Seq<RowView>,
    entries: Seq<RemoteEntry>,
) -> (FsView, Seq<RowView>)
    decreases entries.len(),
{
    if entries.len() == 0 {
        (fs, rows)
    } else {
        let (f, rs) = entries_met(fs, workspace_id, dir_ino, rows, entries.drop_last());
        let e = entries.last();
        match e.attrs {
            None => (f, rs),
            Some(a) => {
                let g = f.met_in(workspace_id, e.node_id@, dir_ino, a);
                let ino = f.ino_for(e.node_id@);
                if g.inodes.contains_key(ino) {
                    (g, rs.push(RowView { ino, name: e.name@, attr: g.inodes[ino].attr }))
                } else {
                    (g, rs)
                }
            },
        }
    }
}

/// A directory is known whole once a page names no further one, or names itself.
pub open spec fn is_last_page(asked: Seq<char>, next: Seq<char>) -> bool {
    next.len() == 0 || next == asked
}

/// Where in the directory the kernel reads on.
pub fn start_row(offset: i64) -> (r: usize)
    requires
        offset <= usize::MAX,
    ensures
        r == if offset < 0 {
            0
        } else {
            offset as int
        },
{
    request_offset(offset) as usize
}

/// The offset at which the kernel reads on behind the row at `index`.
pub fn row_cookie(index: usize) -> (r: i64)
    requires
        index < usize::MAX,
    ensures
        r == if index + 1 <= i64::MAX {
            index + 1
        } else {
            i64::MAX as int
        },
{
    if index as u64 >= i64::MAX as u64 {
        i64::MAX
    } else {
        (index + 1) as i64
    }
}

impl DirCache {
    pub fn step(&self, index: usize) -> (r: DirStep)
        ensures
            r == if index < self@.rows.len() {
                DirStep::Row(index)
            } else if self@.complete {
                DirStep::End
            } else {
                DirStep::Fetch
            },
    {
        if index < self.rows.len() {
            DirStep::Row(index)
        } else if self.complete {
            DirStep::End
        } else {
            DirStep::Fetch
        }
    }
}

impl ScryFuseFs {
    pub fn initial_dir_cache(&self, ino: u64) -> (r: Result<DirCache, Errno>)
        ensures
            match r {
                Ok(d) => self@.inodes.contains_key(ino) && d@ == first_rows(self@, ino),
                Err(e) => !self@.inodes.contains_key(ino) && e == Errno::NoEntry,
            },
    {
        let entry = match self.known_entry(ino) {
            Ok(e) => e,
            Err(e) => {
                return Err(e);
            },
        };
        let mut rows: Vec<DirRow> = Vec::new();
        rows.push(DirRow { ino, name: ".".to_owned(), attr: entry.attr });
        let parent_attr = match self.entry(entry.parent_ino) {
            Some(parent) => parent.attr,
            None => entry.attr,
        };
        rows.push(DirRow { ino: entry.parent_ino, name: "..".to_owned(), attr: parent_attr });
        let d = DirCache { rows, next_cursor: String::new(), complete: false };
        proof {
            assert(d@.rows =~= first_rows(self@, ino).rows);
        }
        Ok(d)
    }

    /// The directory as far as it is known, taken out while it is read.
    pub fn take_dir_cache(&mut self, ino: u64) -> (r: Result<DirCache, Errno>)
        ensures
            match r {
                Ok(d) => {
                    &&& old(self)@.inodes.contains_key(ino)
                    &&& d@ == if old(self)@.dirs.contains_key(ino) {
                        old(self)@.dirs[ino]
                    } else {
                        first_rows(old(self)@, ino)
                    }
                    &&& final(self)@ == old(self)@.forgetting_dir(ino)
                },
                Err(e) => {
                    &&& !old(self)@.inodes.contains_key(ino)
                    &&& e == Errno::NoEntry
                    &&& final(self)@ == old(self)@
                },
            },
    {
        let ghost before = self@;
        if self.entry(ino).is_none() {
            return Err(Errno::NoEntry);
        }
        match self.dir_cache.remove(&ino) {
            Some(d) => {
                proof {
                    assert(self@.dirs =~= before.dirs.remove(ino));
                }
                Ok(d)
            },
            None => {
                proof {
                    assert(self@.dirs =~= before.dirs);
                    assert(self@.dirs =~= before.dirs.remove(ino));
                }
                self.initial_dir_cache(ino)
            },
        }
    }

    pub fn keep_dir_cache(&mut self, ino: u64, cache: DirCache)
        ensures
            final(self)@ == (FsView { dirs: old(self)@.dirs.insert(ino, cache@), ..old(self)@ }),
    {
        let ghost before = self@;
        self.dir_cache.insert(ino, cache);
        proof {
            assert(self@.dirs =~= before.dirs.insert(ino, cache@));
        }
    }

    /// A page of the directory came.
    pub fn add_dir_page(
        &mut self,
        workspace_id: &str,
        dir_ino: u64,
        cache: &mut DirCache,
        entries: Vec<RemoteEntry>,
        next_cursor: &str,
    )
        ensures
            ({
                let (f, rows) = entries_met(
                    old(self)@,
                    workspace_id@,
                    dir_ino,
                    old(cache)@.rows,
                    entries@,
                );
                let last = is_last_page(old(cache)@.next_cursor, next_cursor@);
                &&& final(self)@ == f
                &&& final(cache)@.rows == rows
                &&& final(cache)@.complete == (old(cache)@.complete || last)
                &&& final(cache)@.next_cursor == if last {
                    old(cache)@.next_cursor
                } else {
                    next_cursor@
                }
            }),
    {
        let ghost fs = self@;
        let ghost before = cache@;
        let mut i: usize = 0;
        while i < entries.len()
            invariant
                i <= entries@.len(),
                (self@, cache@.rows) == entries_met(
                    fs,
                    workspace_id@,
                    dir_ino,
                    before.rows,
                    entries@.take(i as int),
                ),
                cache@.complete == before.complete,
                cache@.next_cursor == before.next_cursor,
            decreases entries@.len() - i,
        {
            let ghost t = entries@.take(i + 1);
            proof {
                assert(t.drop_last() =~= entries@.take(i as int));
                assert(t.last() == entries@[i as int]);
            }
            if let Some(attrs) = &entries[i].attrs {
                let child: u64 = self.upsert_inode(
                    workspace_id,
                    entries[i].node_id.as_str(),
                    dir_ino,
                    proto_attrs_to_fuse(0, attrs),
                );
                let ghost rows = cache@.rows;
                if let Some(e) = self.entry(child) {
                    let row = DirRow {
                        ino: child,
                        name: entries[i].name.clone(),
                        attr: e.attr,
                    };
                    let ghost g_row = row;
                    cache.rows.push(row);
                    proof {
                        assert(cache@.rows =~= rows.push(g_row@));
                    }
                }
            }
            i = i + 1;
        }
        proof {
            assert(entries@.take(i as int) =~= entries@);
        }
        if next_cursor.is_empty() || same_text(next_cursor, cache.next_cursor.as_str()) {
            cache.complete = true;
        } else {
            cache.next_cursor = next_cursor.to_owned();
        }
    }
}

// ---------------------------------------------------------------------------
// Changing attributes
// ---------------------------------------------------------------------------

/// The time of change to be set: a time that cannot be sent counts as the beginning of 1970.
pub open spec fn time_to_set(mtime: Option<Option<u128>>) -> Option<i64> {
    match mtime {
        None => None,
        Some(Some(n)) if n <= i64::MAX => Some(n as i64),
        Some(_) => Some(0),
    }
}

pub fn mtime_to_set(mtime: Option<Option<u128>>) -> (r: Option<i64>)
    ensures
        r == time_to_set(mtime),
{
    match mtime {
        None => None,
        Some(t) => match time_or_now_to_nanos(t) {
            Some(n) => Some(n),
            None => Some(0),
        },
    }
}

/// What is to be changed of an inode.
#[derive(Debug, Clone, Copy, PartialEq, Eq, Structural)]
pub struct AttrChange {
    pub ino: u64,
    pub size: Option<u64>,
    pub mode: Option<u32>,
    pub mtime: Option<i64>,
}

/// What is asked of the server, or said to the kernel.
#[derive(Debug)]
pub enum SetAttrAction {
    /// Open the file in this mode.
    Open { mode: ProtoHandleMode },
    Truncate { handle_id: String, size: u64 },
    Flush { handle_id: String },
    Release { handle_id: String },
    SetAttrs { has_mode: bool, mode: u32, has_mtime: bool, mtime: i64 },
    GetAttrs,
    Reply(FileAttr),
    Fail(Errno),
}

/// How the server answered.
#[derive(Debug)]
pub enum SetAttrEvent {
    Opened(String),
    Done,
    Attrs(Option<ProtoAttrs>),
    Failed(Code),
}

pub enum ActionView {
    Open { mode: ProtoHandleMode },
    Truncate { handle_id: Seq<char>, size: u64 },
    Flush { handle_id: Seq<char> },
    Release { handle_id: Seq<char> },
    SetAttrs { has_mode: bool, mode: u32, has_mtime: bool, mtime: i64 },
    GetAttrs,
    Reply(FileAttr),
    Fail(Errno),
}

impl View for SetAttrAction {
    type V = ActionView;

    open spec fn view(&self) -> ActionView {
        match *self {
            SetAttrAction::Open { mode } => ActionView::Open { mode },
            SetAttrAction::Truncate { handle_id, size } => ActionView::Truncate {
                handle_id: handle_id@,
                size,
            },
            SetAttrAction::Flush { handle_id } => ActionView::Flush { handle_id: handle_id@ },
            SetAttrAction::Release { handle_id } => ActionView::Release { handle_id: handle_id@ },
            SetAttrAction::SetAttrs { has_mode, mode, has_mtime, mtime } => ActionView::SetAttrs {
                has_mode,
                mode,
                has_mtime,
                mtime,
            },
            SetAttrAction::GetAttrs => ActionView::GetAttrs,
            SetAttrAction::Reply(a) => ActionView::Reply(a),
            SetAttrAction::Fail(e) => ActionView::Fail(e),
        }
    }
}

pub enum EventView {
    Opened(Seq<char>),
    Done,
    Attrs(Option<ProtoAttrs>),
    Failed(Code),
}

impl View for SetAttrEvent {
    type V = EventView;

    open spec fn view(&self) -> EventView {
        match *self {
            SetAttrEvent::Opened(h) => EventView::Opened(h@),
            SetAttrEvent::Done => EventView::Done,
            SetAttrEvent::Attrs(a) => EventView::Attrs(a),
            SetAttrEvent::Failed(c) => EventView::Failed(c),
        }
    }
}

/// The event is an answer to the action.
pub open spec fn is_answer(action: ActionView, event: EventView) -> bool {
    match action {
        ActionView::Open { .. } => event is Opened || event is Failed,
        ActionView::Truncate { .. } | ActionView::Flush { .. } | ActionView::Release {
            ..
        } | ActionView::SetAttrs { .. } => event is Done || event is Failed,
        ActionView::GetAttrs => event is Attrs || event is Failed,
        ActionView::Reply(_) | ActionView::Fail(_) => false,
    }
}

impl AttrChange {
    /// What is left to do once the size is settled.
    pub open spec fn beyond_size(self) -> ActionView {
        if self.mode is Some || self.mtime is Some {
            ActionView::SetAttrs {
                has_mode: self.mode is Some,
                mode: match self.mode {
                    Some(m) => m,
                    None => 0,
                },
                has_mtime: self.mtime is Some,
                mtime: match self.mtime {
                    Some(t) => t,
                    None => 0,
                },
            }
        } else {
            ActionView::GetAttrs
        }
    }

    pub open spec fn first(self, fs: FsView) -> ActionView {
        if !fs.inodes.contains_key(self.ino) {
            ActionView::Fail(Errno::NoEntry)
        } else if self.size is Some {
            ActionView::Open { mode: ProtoHandleMode::Write }
        } else {
            self.beyond_size()
        }
    }

    /// A change of size opens the file, cuts it, writes it back and closes it; whether closing
    /// succeeded does not matter. Any other failure ends the change.
    pub open spec fn after(self, action: ActionView, event: EventView) -> ActionView {
        match (action, event) {
            (ActionView::Release { .. }, _) => self.beyond_size(),
            (_, EventView::Failed(code)) => ActionView::Fail(errno_of(code)),
            (ActionView::Open { .. }, EventView::Opened(handle_id)) => ActionView::Truncate {
                handle_id,
                size: self.size->0,
            },
            (ActionView::Truncate { handle_id, .. }, _) => ActionView::Flush { handle_id },
            (ActionView::Flush { handle_id }, _) => ActionView::Release { handle_id },
            (ActionView::SetAttrs { .. }, _) => ActionView::GetAttrs,
            (ActionView::GetAttrs, EventView::Attrs(Some(a))) => ActionView::Reply(
                fuse_attr_of(self.ino, a),
            ),
            (_, _) => ActionView::Fail(Errno::Io),
        }
    }
}

/// The mount once the server has answered: new attributes are remembered.
pub open spec fn fs_after(fs: FsView, change: AttrChange, action: ActionView, event: EventView) -> FsView {
    match (action, event) {
        (ActionView::GetAttrs, EventView::Attrs(Some(a))) => fs.with_attr(
            change.ino,
            fuse_attr_of(change.ino, a),
        ),
        (_, _) => fs,
    }
}

fn act_beyond_size(change: &AttrChange) -> (r: SetAttrAction)
    ensures
        r@ == change.beyond_size(),
{
    if change.mode.is_some() || change.mtime.is_some() {
        SetAttrAction::SetAttrs {
            has_mode: change.mode.is_some(),
            mode: match change.mode {
                Some(m) => m,
                None => 0,
            },
            has_mtime: change.mtime.is_some(),
            mtime: match change.mtime {
                Some(t) => t,
                None => 0,
            },
        }
    } else {
        SetAttrAction::GetAttrs
    }
}

impl ScryFuseFs {
    /// The first thing to do for a change of attributes.
    pub fn setattr(&self, change: &AttrChange) -> (r: SetAttrAction)
        ensures
            r@ == change.first(self@),
    {
        if self.entry(change.ino).is_none() {
            return SetAttrAction::Fail(Errno::NoEntry);
        }
        if change.size.is_some() {
            return SetAttrAction::Open { mode: ProtoHandleMode::Write };
        }
        act_beyond_size(change)
    }

    /// What follows the server's answer.
    pub fn setattr_next(
        &mut self,
        change: &AttrChange,
        action: SetAttrAction,
        event: SetAttrEvent,
    ) -> (r: SetAttrAction)
        requires
            is_answer(action@, event@),
            action@ is Open ==> change.size is Some,
        ensures
            r@ == change.after(action@, event@),
            final(self)@ == fs_after(old(self)@, *change, action@, event@),
    {
        if let SetAttrAction::Release { .. } = &action {
            return act_beyond_size(change);
        }
        if let SetAttrEvent::Failed(code) = &event {
            return SetAttrAction::Fail(status_to_errno(*code));
        }
        match action {
            SetAttrAction::Open { mode: _ } => match (event, change.size) {
                (SetAttrEvent::Opened(handle_id), Some(size)) => SetAttrAction::Truncate {
                    handle_id,
                    size,
                },
                _ => SetAttrAction::Fail(Errno::Io),
            },
            SetAttrAction::Truncate { handle_id, size: _ } => SetAttrAction::Flush { handle_id },
            SetAttrAction::Flush { handle_id } => SetAttrAction::Release { handle_id },
            SetAttrAction::Release { .. } => act_beyond_size(change),
            SetAttrAction::SetAttrs { .. } => SetAttrAction::GetAttrs,
            SetAttrAction::GetAttrs => match event {
                SetAttrEvent::Attrs(attrs) => {
                    match self.finish_getattr(change.ino, attrs.as_ref()) {
                        Ok(a) => SetAttrAction::Reply(a),
                        Err(e) => SetAttrAction::Fail(e),
                    }
                },
                _ => SetAttrAction::Fail(Errno::Io),
            },
            SetAttrAction::Reply(_) | SetAttrAction::Fail(_) => SetAttrAction::Fail(Errno::Io),
        }
    }
}

/// How many answers of the server an action is from the end, at most.
pub open spec fn answers_left(action: ActionView) -> nat {
    match action {
        ActionView::Open { .. } => 6,
        ActionView::Truncate { .. } => 5,
        ActionView::Flush { .. } => 4,
        ActionView::Release { .. } => 3,
        ActionView::SetAttrs { .. } => 2,
        ActionView::GetAttrs => 1,
        ActionView::Reply(_) | ActionView::Fail(_) => 0,
    }
}

// ---------------------------------------------------------------------------
// Laws
// ---------------------------------------------------------------------------

/// A change of attributes comes to an end after at most six answers of the server, whatever they
/// are.
pub proof fn lemma_setattr_ends(change: AttrChange, action: ActionView, event: EventView)
    requires
        is_answer(action, event),
    ensures
        answers_left(change.after(action, event)) < answers_left(action),
        answers_left(action) <= 6,
{
}

/// The actions of a change of which nothing fails.
pub open spec fn run(change: AttrChange, handle_id: Seq<char>, attrs: ProtoAttrs, fs: FsView, n: nat) -> ActionView
    decreases n,
{
    if n == 0 {
        change.first(fs)
    } else {
        let action = run(change, handle_id, attrs, fs, (n - 1) as nat);
        match action {
            ActionView::Open { .. } => change.after(action, EventView::Opened(handle_id)),
            ActionView::GetAttrs => change.after(action, EventView::Attrs(Some(attrs))),
            ActionView::Reply(_) | ActionView::Fail(_) => action,
            _ => change.after(action, EventView::Done),
        }
    }
}

/// A change of size that nothing fails in cuts the file to that size through the handle that was
/// opened, writes it back and closes it, then sets the rest, and answers with what the server says
/// of the file at the end.
pub proof fn lemma_setattr_does_what_was_asked(
    change: AttrChange,
    handle_id: Seq<char>,
    attrs: ProtoAttrs,
    fs: FsView,
)
    requires
        fs.inodes.contains_key(change.ino),
        change.size is Some,
    ensures
        run(change, handle_id, attrs, fs, 0) == (ActionView::Open { mode: ProtoHandleMode::Write }),
        run(change, handle_id, attrs, fs, 1) == (ActionView::Truncate {
            handle_id,
            size: change.size->0,
        }),
        run(change, handle_id, attrs, fs, 2) == (ActionView::Flush { handle_id }),
        run(change, handle_id, attrs, fs, 3) == (ActionView::Release { handle_id }),
        run(change, handle_id, attrs, fs, 4) == change.beyond_size(),
        run(change, handle_id, attrs, fs, 6) == ActionView::Reply(fuse_attr_of(change.ino, attrs)),
{
    reveal_with_fuel(run, 8);
}

/// A mount that just took its root is in order.
pub proof fn lemma_rooted_in_order(fs: FsView, node_id: Seq<char>, attrs: ProtoAttrs)
    requires
        fs.inodes == Map::<u64, InodeView>::empty(),
        fs.numbers == Map::<Seq<char>, u64>::empty(),
        fs.next_ino > ROOT_INO,
    ensures
        fs.rooted(node_id, fuse_attr_of(ROOT_INO, attrs)).in_order(),
{
}

/// Whatever node is met, the mount stays in order, numbers that were given stay, and two nodes
/// never share one, as long as the numbers last.
pub proof fn lemma_met_in_order(
    fs: FsView,
    workspace_id: Seq<char>,
    node_id: Seq<char>,
    parent: u64,
    attr: FileAttr,
)
    requires
        fs.in_order(),
        fs.next_ino < u64::MAX,
    ensures
        fs.met(workspace_id, node_id, parent, attr).in_order(),
        fs.met(workspace_id, node_id, parent, attr).numbers.contains_key(node_id),
        forall|id: Seq<char>| #[trigger]
            fs.numbers.contains_key(id) ==> fs.met(
                workspace_id,
                node_id,
                parent,
                attr,
            ).numbers.contains_key(id) && fs.met(workspace_id, node_id, parent, attr).numbers[id]
                == fs.numbers[id],
        met_reply(fs.met(workspace_id, node_id, parent, attr), fs.ino_for(node_id)) == Ok::<
            FileAttr,
            Errno,
        >(FileAttr { ino: fs.ino_for(node_id), ..attr }),
{
    let g = fs.met(workspace_id, node_id, parent, attr);
    let ino = fs.ino_for(node_id);
    assert forall|id: Seq<char>| #[trigger] g.numbers.contains_key(id) implies {
        &&& g.inodes.contains_key(g.numbers[id])
        &&& g.inodes[g.numbers[id]].node_id == id
    } by {
        if id != node_id {
            assert(fs.numbers.contains_key(id));
            assert(fs.inodes.contains_key(fs.numbers[id]));
        }
    }
    assert forall|i: u64| #[trigger] g.inodes.contains_key(i) implies {
        &&& g.inodes[i].attr.ino == i
        &&& g.numbers.contains_key(g.inodes[i].node_id)
        &&& g.numbers[g.inodes[i].node_id] == i
        &&& i < g.next_ino
    } by {
        if i != ino {
            assert(fs.inodes.contains_key(i));
        }
        if fs.knows(node_id) {
            assert(fs.inodes.contains_key(fs.numbers[node_id]));
        }
    }
}

/// In a mount that is in order, two nodes never share a number.
pub proof fn lemma_numbers_distinct(fs: FsView, a: Seq<char>, b: Seq<char>)
    requires
        fs.in_order(),
        fs.knows(a),
        fs.knows(b),
        fs.numbers[a] == fs.numbers[b],
    ensures
        a == b,
{
}

/// A directory's rows are the server's entries, in the server's order, each with the number of its
/// node, and reading a directory leaves the mount in order.
pub proof fn lemma_rows_are_entries(
    fs: FsView,
    workspace_id: Seq<char>,
    dir_ino: u64,
    rows: Seq<RowView>,
    entries: Seq<RemoteEntry>,
)
    requires
        fs.in_order(),
        fs.next_ino + entries.len() <= u64::MAX,
        forall|i: int| 0 <= i < entries.len() ==> (#[trigger] entries[i]).attrs is Some,
    ensures
        ({
            let (f, rs) = entries_met(fs, workspace_id, dir_ino, rows, entries);
            &&& f.in_order()
            &&& f.next_ino <= fs.next_ino + entries.len()
            &&& rs.len() == rows.len() + entries.len()
            &&& forall|i: int| 0 <= i < rows.len() ==> rs[i] == rows[i]
            &&& forall|i: int|
                0 <= i < entries.len() ==> {
                    &&& rs[rows.len() + i].name == (#[trigger] entries[i]).name@
                    &&& f.knows(entries[i].node_id@)
                    &&& rs[rows.len() + i].ino == f.numbers[entries[i].node_id@]
                }
        }),
    decreases entries.len(),
{
    if entries.len() > 0 {
        let before = entries.drop_last();
        let e = entries.last();
        assert(e == entries[entries.len() - 1]);
        assert forall|i: int| 0 <= i < before.len() implies (#[trigger] before[i]).attrs is Some by {
            assert(before[i] == entries[i]);
        }
        lemma_rows_are_entries(fs, workspace_id, dir_ino, rows, before);
        let (f, rs) = entries_met(fs, workspace_id, dir_ino, rows, before);
        let a = e.attrs->0;
        lemma_met_in_order(f, workspace_id, e.node_id@, dir_ino, fuse_attr_of(0, a));
        let g = f.met_in(workspace_id, e.node_id@, dir_ino, a);
        let (h, all) = entries_met(fs, workspace_id, dir_ino, rows, entries);
        assert(h == g);
        assert forall|i: int| 0 <= i < entries.len() implies {
            &&& all[rows.len() + i].name == (#[trigger] entries[i]).name@
            &&& h.knows(entries[i].node_id@)
            &&& all[rows.len() + i].ino == h.numbers[entries[i].node_id@]
        } by {
            if i < before.len() {
                assert(before[i] == entries[i]);
                assert(f.numbers.contains_key(before[i].node_id@));
            }
        }
    }
}

proof fn lemma_run_rests(change: AttrChange, handle_id: Seq<char>, attrs: ProtoAttrs, fs: FsView, k: nat, n: nat)
    requires
        run(change, handle_id, attrs, fs, k) is Reply || run(change, handle_id, attrs, fs, k) is Fail,
        k <= n,
    ensures
        run(change, handle_id, attrs, fs, n) == run(change, handle_id, attrs, fs, k),
    decreases n,
{
    if n > k {
        lemma_run_rests(change, handle_id, attrs, fs, k, (n - 1) as nat);
    }
}

/// A change of attributes in which nothing fails asks the server exactly once to set the mode and
/// the time that were given, and none that was not, once the size is settled and before it answers
/// with what the server says of the file. Where neither was given, it asks for no such thing.
pub proof fn lemma_setattr_sets_mode_and_time(
    change: AttrChange,
    handle_id: Seq<char>,
    attrs: ProtoAttrs,
    fs: FsView,
    n: nat,
)
    requires
        fs.inodes.contains_key(change.ino),
    ensures
        ({
            let k: nat = if change.size is Some {
                4
            } else {
                0
            };
            let a = run(change, handle_id, attrs, fs, k);
            let told = change.mode is Some || change.mtime is Some;
            &&& told ==> a is SetAttrs
            &&& told ==> run(change, handle_id, attrs, fs, k + 1) is GetAttrs
            &&& told ==> run(change, handle_id, attrs, fs, k + 2) is Reply
            &&& !told ==> a is GetAttrs
            &&& !told ==> run(change, handle_id, attrs, fs, k + 1) is Reply
            &&& a matches ActionView::SetAttrs { has_mode, mode, has_mtime, mtime } ==> {
                &&& has_mode <==> change.mode is Some
                &&& has_mtime <==> change.mtime is Some
                &&& change.mode is Some ==> mode == change.mode->0
                &&& change.mtime is Some ==> mtime == change.mtime->0
            }
            &&& run(change, handle_id, attrs, fs, n) is SetAttrs ==> told && n == k
        }),
{
    reveal_with_fuel(run, 8);
    if change.size is Some {
        if n > 6 {
            lemma_run_rests(change, handle_id, attrs, fs, 6, n);
        } else {
            assert(n == 0 || n == 1 || n == 2 || n == 3 || n == 4 || n == 5 || n == 6);
        }
    } else {
        if n > 2 {
            lemma_run_rests(change, handle_id, attrs, fs, 2, n);
        } else {
            assert(n == 0 || n == 1 || n == 2);
        }
    }
}

/// What the kernel does not know of is not changed, and what the server refuses ends the change
/// with the error that says so; only a file that cannot be closed is no reason to stop.
pub proof fn lemma_setattr_failures(change: AttrChange, action: ActionView, code: Code, fs: FsView)
    ensures
        !fs.inodes.contains_key(change.ino) ==> change.first(fs) == ActionView::Fail(Errno::NoEntry),
        !(action is Release) && !(action is Reply) && !(action is Fail) ==> change.after(
            action,
            EventView::Failed(code),
        ) == ActionView::Fail(errno_of(code)),
        action is Release ==> change.after(action, EventView::Failed(code)) == change.after(
            action,
            EventView::Done,
        ),
        action is Release && (change.mode is Some || change.mtime is Some) ==> change.after(
            action,
            EventView::Failed(code),
        ) is SetAttrs,
        change.after(ActionView::GetAttrs, EventView::Attrs(None)) == ActionView::Fail(Errno::Io),
{
}

/// The attributes that are answered are remembered, and nothing else changes.
pub proof fn lemma_setattr_is_remembered(
    fs: FsView,
    change: AttrChange,
    action: ActionView,
    event: EventView,
    other: u64,
)
    requires
        is_answer(action, event),
        fs.inodes.contains_key(change.ino),
    ensures
        ({
            let g = fs_after(fs, change, action, event);
            &&& change.after(action, event) matches ActionView::Reply(a)
                ==> g.inodes[change.ino].attr == a && a.ino == change.ino
            &&& !(change.after(action, event) is Reply) ==> g == fs
            &&& g.inodes.dom() == fs.inodes.dom()
            &&& other != change.ino && fs.inodes.contains_key(other) ==> g.inodes[other]
                == fs.inodes[other]
            &&& g.inodes[change.ino].node_id == fs.inodes[change.ino].node_id
            &&& g.inodes[change.ino].parent_ino == fs.inodes[change.ino].parent_ino
            &&& g.handles == fs.handles
            &&& g.dirs == fs.dirs
            &&& g.numbers == fs.numbers
        }),
{
    assert(fs_after(fs, change, action, event).inodes.dom() =~= fs.inodes.dom());
}

/// A time that can be sent is sent as it is, one that cannot as the beginning, and none where none
/// was given.
pub proof fn lemma_time_to_set(n: u128)
    ensures
        time_to_set(None) is None,
        time_to_set(Some(None)) == Some(0i64),
        n <= i64::MAX ==> time_to_set(Some(Some(n))) == Some(n as i64),
        n > i64::MAX ==> time_to_set(Some(Some(n))) == Some(0i64),
{
}

/// A node that is met is known from then on under its number, in the directory that it was met in
/// and with the attributes that it was met with; what else is known stays as it is.
pub proof fn lemma_met_is_known(
    fs: FsView,
    workspace_id: Seq<char>,
    node_id: Seq<char>,
    parent: u64,
    attr: FileAttr,
    other: u64,
)
    requires
        fs.in_order(),
        fs.next_ino < u64::MAX,
    ensures
        ({
            let g = fs.met(workspace_id, node_id, parent, attr);
            let ino = g.numbers[node_id];
            &&& g.numbers.contains_key(node_id)
            &&& fs.numbers.contains_key(node_id) ==> ino == fs.numbers[node_id]
            &&& !fs.numbers.contains_key(node_id) ==> ino == fs.next_ino && g.next_ino
                == fs.next_ino + 1
            &&& g.inodes.contains_key(ino)
            &&& g.inodes[ino].node_id == node_id
            &&& !fs.numbers.contains_key(node_id) ==> g.inodes[ino].workspace_id == workspace_id
            &&& g.inodes[ino].parent_ino == parent
            &&& g.inodes[ino].attr == FileAttr { ino, ..attr }
            &&& fs.inodes.contains_key(other) && other != ino ==> g.inodes.contains_key(other)
                && g.inodes[other] == fs.inodes[other]
            &&& g.handles == fs.handles
            &&& g.dirs == fs.dirs
            &&& g.next_fh == fs.next_fh
        }),
{
}

/// A handle that is opened is found under its number, which no other has, until it is released.
pub proof fn lemma_handles_are_kept(fs: FsView, handle: RemoteHandleView, other: u64)
    requires
        fs.next_fh < u64::MAX,
    ensures
        ({
            let g = fs.with_handle(handle);
            &&& g.handles.contains_key(fs.next_fh)
            &&& g.handles[fs.next_fh] == handle
            &&& other != fs.next_fh ==> (g.handles.contains_key(other) <==> fs.handles.contains_key(
                other,
            ))
            &&& other != fs.next_fh && fs.handles.contains_key(other) ==> g.handles[other]
                == fs.handles[other]
            &&& g.next_fh == fs.next_fh + 1
            &&& g.inodes == fs.inodes
            &&& g.numbers == fs.numbers
            &&& g.dirs == fs.dirs
        }),
{
}

/// A node that was moved is in its new directory, and both directories, and its own, are read
/// anew; everything else stays.
pub proof fn lemma_moved_is_elsewhere(
    fs: FsView,
    node_id: Seq<char>,
    parent: u64,
    new_parent: u64,
    other: u64,
)
    requires
        fs.in_order(),
    ensures
        ({
            let g = fs.moved(node_id, parent, new_parent);
            let ino = fs.numbers[node_id];
            &&& !g.dirs.contains_key(parent)
            &&& !g.dirs.contains_key(new_parent)
            &&& fs.numbers.contains_key(node_id) ==> !g.dirs.contains_key(ino)
                && g.inodes[ino].parent_ino == new_parent && g.inodes[ino].attr
                == fs.inodes[ino].attr && g.inodes[ino].node_id == node_id
            &&& other != parent && other != new_parent && !(fs.numbers.contains_key(node_id)
                && other == ino) ==> {
                &&& g.dirs.contains_key(other) <==> fs.dirs.contains_key(other)
                &&& fs.dirs.contains_key(other) ==> g.dirs[other] == fs.dirs[other]
            }
            &&& !(fs.numbers.contains_key(node_id) && other == ino) && fs.inodes.contains_key(other)
                ==> g.inodes[other] == fs.inodes[other]
            &&& g.inodes.dom() == fs.inodes.dom()
            &&& g.numbers == fs.numbers
            &&& g.handles == fs.handles
        }),
{
    assert(fs.moved(node_id, parent, new_parent).inodes.dom() =~= fs.inodes.dom());
}

/// A directory is listed from itself and its parent on.
pub proof fn lemma_listing_begins(fs: FsView, ino: u64)
    requires
        fs.inodes.contains_key(ino),
    ensures
        ({
            let d = first_rows(fs, ino);
            let up = fs.inodes[ino].parent_ino;
            &&& d.rows.len() == 2
            &&& d.rows[0].name == "."@ && d.rows[0].ino == ino && d.rows[0].attr
                == fs.inodes[ino].attr
            &&& d.rows[1].name == ".."@ && d.rows[1].ino == up
            &&& fs.inodes.contains_key(up) ==> d.rows[1].attr == fs.inodes[up].attr
            &&& d.next_cursor.len() == 0
            &&& !d.complete
        }),
{
}

/// An entry with attributes is listed under its name, with the number and the attributes of its
/// node; one without is not. A page is the last one where it names none to go on with, or the one
/// that was asked for.
pub proof fn lemma_entry_is_listed(
    fs: FsView,
    workspace_id: Seq<char>,
    dir_ino: u64,
    rows: Seq<RowView>,
    e: RemoteEntry,
    asked: Seq<char>,
    next: Seq<char>,
)
    requires
        fs.in_order(),
        fs.next_ino < u64::MAX,
    ensures
        ({
            let (g, rs) = entries_met(fs, workspace_id, dir_ino, rows, seq![e]);
            match e.attrs {
                None => g == fs && rs == rows,
                Some(a) => {
                    let ino = g.numbers[e.node_id@];
                    &&& g.numbers.contains_key(e.node_id@)
                    &&& rs.len() == rows.len() + 1
                    &&& rs.drop_last() == rows
                    &&& rs.last().name == e.name@
                    &&& rs.last().ino == ino
                    &&& rs.last().attr == FileAttr { ino, ..fuse_attr_of(0, a) }
                    &&& g.inodes[ino].parent_ino == dir_ino
                },
            }
        }),
        next.len() == 0 ==> is_last_page(asked, next),
        next.len() > 0 ==> (is_last_page(asked, next) <==> next == asked),
{
    reveal_with_fuel(entries_met, 2);
    assert(seq![e].drop_last() =~= Seq::<RemoteEntry>::empty());
    if e.attrs is Some {
        let a = e.attrs->0;
        lemma_met_is_known(fs, workspace_id, e.node_id@, dir_ino, fuse_attr_of(0, a), 0);
        let rs = entries_met(fs, workspace_id, dir_ino, rows, seq![e]).1;
        assert(rs.drop_last() =~= rows);
    }
}

/// Whoever hands a row's cookie back goes on with the row behind it.
pub proof fn lemma_cookies_lead_on(index: usize, cookie: i64, next: usize)
    requires
        index < usize::MAX,
        index < i64::MAX,
        call_ensures(row_cookie, (index,), cookie),
        call_ensures(start_row, (cookie,), next),
    ensures
        next == index + 1,
{
}

/// A hint is given where the server wants to know who asks, and nowhere else.
pub proof fn lemma_hints(code: Code, r: Option<&'static str>)
    requires
        call_ensures(root_failure_hint, (code,), r),
    ensures
        r is Some <==> code == Code::Unauthenticated,
{
}

/// A change of mode or time goes to the server with exactly what was changed; a change of size
/// opens the file first.
pub proof fn lemma_setattr_begins(fs: &ScryFuseFs, change: &AttrChange, r: SetAttrAction)
    requires
        call_ensures(ScryFuseFs::setattr, (fs, change), r),
        fs@.inodes.contains_key(change.ino),
    ensures
        change.size is Some ==> r@ == (ActionView::Open { mode: ProtoHandleMode::Write }),
        change.size is None && (change.mode is Some || change.mtime is Some) ==> r@ is SetAttrs,
        change.size is None && change.mode is None && change.mtime is None ==> r@ is GetAttrs,
        r@ is SetAttrs ==> {
            &&& r@->has_mode <==> change.mode is Some
            &&& r@->has_mtime <==> change.mtime is Some
            &&& change.mode is Some ==> r@->SetAttrs_mode == change.mode->0
            &&& change.mtime is Some ==> r@->mtime == change.mtime->0
        },
{
}

/// A number is followed by the next one, as long as there is one.
pub proof fn lemma_numbers_go_on(n: u64, time: u128, set: Option<i64>, unset: Option<i64>)
    requires
        call_ensures(mtime_to_set, (Some(Some(time)),), set),
        call_ensures(mtime_to_set, (None,), unset),
    ensures
        n < u64::MAX ==> successor(n) == n + 1,
        n == u64::MAX ==> successor(n) == n,
        time <= i64::MAX ==> set is Some && set->0 == time,
        unset is None,
{
}

/// A mount needs a root that is there.
pub proof fn lemma_root_has_to_be_there(found: bool, node_id: &str, r: Result<(), &'static str>)
    requires
        call_ensures(check_root, (found, node_id), r),
    ensures
        r is Ok <==> found && node_id@.len() > 0,
{
}

} // verus!

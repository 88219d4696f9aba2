//! The table of open handles. An operation that works outside the table takes the handle's body
//! out when it begins and puts it back when it is done.
use crate::handle_content::{BodyView, HandleBody};
use crate::model::HandleMode;
use crate::status::{answers, status_of, Code, Status, StatusView};
use crate::text::{same_text, texts};
use vstd::prelude::*;

verus! {

/// An open handle. Times count nanoseconds from a fixed start.
#[derive(Debug)]
pub struct HandleState {
    pub workspace_id: String,
    pub node_id: String,
    pub mode: HandleMode,
    pub snapshot_version: u64,
    pub body: HandleBody,
    pub dirty: bool,
    pub last_touched: u64,
    pub closing: bool,
}

#[verifier::ext_equal]
pub struct HandleView {
    pub workspace_id: Seq<char>,
    pub node_id: Seq<char>,
    pub mode: HandleMode,
    pub snapshot_version: u64,
    pub body: BodyView,
    pub dirty: bool,
    pub last_touched: u64,
    pub closing: bool,
}

impl View for HandleState {
    type V = HandleView;

    open spec fn view(&self) -> HandleView {
        HandleView {
            workspace_id: self.workspace_id@,
            node_id: self.node_id@,
            mode: self.mode,
            snapshot_version: self.snapshot_version,
            body: self.body@,
            dirty: self.dirty,
            last_touched: self.last_touched,
            closing: self.closing,
        }
    }
}

#[derive(Debug)]
pub struct HandleEntry {
    pub handle_id: String,
    pub state: HandleState,
}

#[derive(Debug)]
pub struct HandleTable {
    entries: Vec<HandleEntry>,
}

/// The entry at `i` is that of the handle `id`.
pub open spec fn is_entry(entries: Seq<HandleEntry>, id: Seq<char>, i: int) -> bool {
    0 <= i < entries.len() && entries[i].handle_id@ == id
}

pub open spec fn has_entry(entries: Seq<HandleEntry>, id: Seq<char>) -> bool {
    exists|i: int| is_entry(entries, id, i)
}

pub open spec fn entry_of(entries: Seq<HandleEntry>, id: Seq<char>) -> int {
    choose|i: int| is_entry(entries, id, i)
}

pub open spec fn distinct_ids(entries: Seq<HandleEntry>) -> bool {
    forall|i: int, j: int|
        0 <= i < entries.len() && 0 <= j < entries.len() && #[trigger] entries[i].handle_id@
            == #[trigger] entries[j].handle_id@ ==> i == j
}

/// The table as a map from handle ids to handles.
pub open spec fn table_map(entries: Seq<HandleEntry>) -> Map<Seq<char>, HandleView> {
    Map::new(
        |id: Seq<char>| has_entry(entries, id),
        |id: Seq<char>| entries[entry_of(entries, id)].state@,
    )
}

impl View for HandleTable {
    type V = Map<Seq<char>, HandleView>;

    closed spec fn view(&self) -> Map<Seq<char>, HandleView> {
        table_map(self.entries@)
    }
}

proof fn lemma_entry(entries: Seq<HandleEntry>, i: int)
    requires
        distinct_ids(entries),
        0 <= i < entries.len(),
    ensures
        table_map(entries).contains_key(entries[i].handle_id@),
        table_map(entries)[entries[i].handle_id@] == entries[i].state@,
{
    let id = entries[i].handle_id@;
    assert(is_entry(entries, id, i));
    let j = entry_of(entries, id);
    assert(is_entry(entries, id, j));
    assert(entries[j].handle_id@ == entries[i].handle_id@);
}

proof fn lemma_update(entries: Seq<HandleEntry>, i: int, e: HandleEntry)
    requires
        distinct_ids(entries),
        0 <= i < entries.len(),
        e.handle_id@ == entries[i].handle_id@,
    ensures
        distinct_ids(entries.update(i, e)),
        table_map(entries.update(i, e)) == table_map(entries).insert(e.handle_id@, e.state@),
{
    let u = entries.update(i, e);
    assert forall|a: int, b: int|
        0 <= a < u.len() && 0 <= b < u.len() && #[trigger] u[a].handle_id@
            == #[trigger] u[b].handle_id@ implies a == b by {
        assert(u[a].handle_id@ == entries[a].handle_id@);
        assert(u[b].handle_id@ == entries[b].handle_id@);
    }
    let m = table_map(u);
    let want = table_map(entries).insert(e.handle_id@, e.state@);
    assert forall|id: Seq<char>| #[trigger] m.contains_key(id) <==> want.contains_key(id) by {
        if has_entry(u, id) {
            let k = entry_of(u, id);
            assert(is_entry(entries, id, k));
        }
        if has_entry(entries, id) {
            let k = entry_of(entries, id);
            assert(is_entry(u, id, k));
        }
        if id == e.handle_id@ {
            assert(is_entry(u, id, i));
        }
    }
    assert forall|id: Seq<char>| #[trigger] m.contains_key(id) implies m[id] == want[id] by {
        let k = entry_of(u, id);
        assert(is_entry(u, id, k));
        lemma_entry(u, k);
        if k == i {
        } else {
            lemma_entry(entries, k);
            assert(id == entries[k].handle_id@);
        }
    }
    assert(m =~= want);
}

proof fn lemma_push(entries: Seq<HandleEntry>, e: HandleEntry)
    requires
        distinct_ids(entries),
        !has_entry(entries, e.handle_id@),
    ensures
        distinct_ids(entries.push(e)),
        table_map(entries.push(e)) == table_map(entries).insert(e.handle_id@, e.state@),
{
    let u = entries.push(e);
    assert forall|a: int, b: int|
        0 <= a < u.len() && 0 <= b < u.len() && #[trigger] u[a].handle_id@
            == #[trigger] u[b].handle_id@ implies a == b by {
        if a < entries.len() && b == entries.len() {
            assert(is_entry(entries, e.handle_id@, a));
        }
        if b < entries.len() && a == entries.len() {
            assert(is_entry(entries, e.handle_id@, b));
        }
        if a < entries.len() && b < entries.len() {
            assert(entries[a].handle_id@ == entries[b].handle_id@);
        }
    }
    let m = table_map(u);
    let want = table_map(entries).insert(e.handle_id@, e.state@);
    assert forall|id: Seq<char>| #[trigger] m.contains_key(id) <==> want.contains_key(id) by {
        if has_entry(u, id) {
            let k = entry_of(u, id);
            if k < entries.len() {
                assert(is_entry(entries, id, k));
            }
        }
        if has_entry(entries, id) {
            let k = entry_of(entries, id);
            assert(is_entry(u, id, k));
        }
        if id == e.handle_id@ {
            assert(is_entry(u, id, entries.len() as int));
        }
    }
    assert forall|id: Seq<char>| #[trigger] m.contains_key(id) implies m[id] == want[id] by {
        let k = entry_of(u, id);
        assert(is_entry(u, id, k));
        lemma_entry(u, k);
        if k < entries.len() {
            lemma_entry(entries, k);
            assert(id == entries[k].handle_id@);
            assert(is_entry(entries, id, k));
        }
    }
    assert(m =~= want);
}

proof fn lemma_remove(entries: Seq<HandleEntry>, i: int)
    requires
        distinct_ids(entries),
        0 <= i < entries.len(),
    ensures
        distinct_ids(entries.remove(i)),
        table_map(entries.remove(i)) == table_map(entries).remove(entries[i].handle_id@),
{
    let u = entries.remove(i);
    let gone = entries[i].handle_id@;
    assert forall|a: int, b: int|
        0 <= a < u.len() && 0 <= b < u.len() && #[trigger] u[a].handle_id@
            == #[trigger] u[b].handle_id@ implies a == b by {
        let x = if a < i { a } else { a + 1 };
        let y = if b < i { b } else { b + 1 };
        assert(u[a] == entries[x]);
        assert(u[b] == entries[y]);
        assert(entries[x].handle_id@ == entries[y].handle_id@);
    }
    let m = table_map(u);
    let want = table_map(entries).remove(gone);
    assert forall|id: Seq<char>| #[trigger] m.contains_key(id) <==> want.contains_key(id) by {
        if has_entry(u, id) {
            let k = entry_of(u, id);
            assert(is_entry(u, id, k));
            let x = if k < i { k } else { k + 1 };
            assert(u[k] == entries[x]);
            assert(is_entry(entries, id, x));
            if id == gone {
                assert(entries[x].handle_id@ == entries[i].handle_id@);
            }
        }
        if has_entry(entries, id) && id != gone {
            let k = entry_of(entries, id);
            assert(is_entry(entries, id, k));
            let x = if k < i { k } else { k - 1 };
            assert(u[x] == entries[k]);
            assert(is_entry(u, id, x));
        }
    }
    assert forall|id: Seq<char>| #[trigger] m.contains_key(id) implies m[id] == want[id] by {
        let k = entry_of(u, id);
        assert(is_entry(u, id, k));
        lemma_entry(u, k);
        let x = if k < i { k } else { k + 1 };
        assert(u[k] == entries[x]);
        lemma_entry(entries, x);
    }
    assert(m =~= want);
}

/// The map has as many handles as the table has entries.
proof fn lemma_table_size(entries: Seq<HandleEntry>)
    requires
        distinct_ids(entries),
    ensures
        table_map(entries).dom().finite(),
        table_map(entries).len() == entries.len(),
    decreases entries.len(),
{
    if entries.len() == 0 {
        assert(table_map(entries) =~= Map::<Seq<char>, HandleView>::empty());
    } else {
        let init = entries.drop_last();
        let last = entries.last();
        assert forall|a: int, b: int|
            0 <= a < init.len() && 0 <= b < init.len() && #[trigger] init[a].handle_id@
                == #[trigger] init[b].handle_id@ implies a == b by {
            assert(init[a] == entries[a] && init[b] == entries[b]);
        }
        if has_entry(init, last.handle_id@) {
            let k = entry_of(init, last.handle_id@);
            assert(is_entry(init, last.handle_id@, k));
            assert(entries[k].handle_id@ == entries[entries.len() - 1].handle_id@);
        }
        lemma_table_size(init);
        lemma_push(init, last);
        assert(init.push(last) =~= entries);
    }
}

// ---------------------------------------------------------------------------
// Who may do what
// ---------------------------------------------------------------------------

/// What an operation needs of a handle.
#[derive(Debug, Clone, Copy, PartialEq, Eq, Structural)]
pub enum Access {
    Any,
    Read,
    Write,
}

/// Why a request on a handle is refused, if it is.
pub open spec fn refusal(
    table: Map<Seq<char>, HandleView>,
    handle_id: Seq<char>,
    workspace_id: Seq<char>,
    access: Access,
) -> Option<StatusView> {
    if !table.contains_key(handle_id) {
        Some(status_of(Code::NotFound, "handle_id not found"@))
    } else if table[handle_id].workspace_id != workspace_id {
        Some(status_of(Code::PermissionDenied, "handle does not belong to workspace"@))
    } else if table[handle_id].closing {
        Some(status_of(Code::FailedPrecondition, "handle is currently closing"@))
    } else if access == Access::Read && table[handle_id].mode == HandleMode::Write {
        Some(status_of(Code::FailedPrecondition, "handle is write-only"@))
    } else if access == Access::Write && table[handle_id].mode == HandleMode::Read {
        Some(status_of(Code::FailedPrecondition, "handle is read-only"@))
    } else {
        None
    }
}

/// What writing a handle back needs to know.
#[derive(Debug)]
pub struct FlushJob {
    pub workspace_id: String,
    pub node_id: String,
    pub mode: HandleMode,
    pub snapshot_version: u64,
    pub body: HandleBody,
}

impl FlushJob {
    /// The job writes back what the handle held.
    pub open spec fn is_of(self, h: HandleView) -> bool {
        &&& self.workspace_id@ == h.workspace_id
        &&& self.node_id@ == h.node_id
        &&& self.mode == h.mode
        &&& self.snapshot_version == h.snapshot_version
        &&& self.body@ == h.body
    }
}

/// A flush of a clean handle only needs the node's attributes; a dirty one is written back.
#[derive(Debug)]
pub enum FlushStart {
    Clean { workspace_id: String, node_id: String },
    Dirty(FlushJob),
}

/// A release of a clean handle ends at once; a dirty one is written back first.
#[derive(Debug)]
pub enum ReleaseStart {
    Clean { snapshot_version: u64 },
    Dirty(FlushJob),
}

/// A dirty handle that has been idle for too long.
#[derive(Debug)]
pub struct ExpiredDirtyHandle {
    pub handle_id: String,
    pub job: FlushJob,
}

// ---------------------------------------------------------------------------
// What the operations make of a handle
// ---------------------------------------------------------------------------

impl HandleView {
    /// The body has been taken out.
    pub open spec fn borrowed(self) -> HandleView {
        HandleView { body: BodyView::empty(), ..self }
    }

    /// The body is back from a read.
    pub open spec fn after_read(self, body: BodyView, ok: bool, now: u64) -> HandleView {
        HandleView {
            body,
            last_touched: if ok {
                now
            } else {
                self.last_touched
            },
            ..self
        }
    }

    /// The body is back from a write or a truncation.
    pub open spec fn after_change(self, body: BodyView, ok: bool, now: u64) -> HandleView {
        HandleView {
            body,
            dirty: self.dirty || ok,
            last_touched: if ok {
                now
            } else {
                self.last_touched
            },
            ..self
        }
    }

    pub open spec fn touched(self, now: u64) -> HandleView {
        HandleView { last_touched: now, ..self }
    }

    pub open spec fn closing(self) -> HandleView {
        HandleView { closing: true, ..self }
    }

    /// The content has been written back.
    pub open spec fn flushed(self, version: u64, body: BodyView, now: u64) -> HandleView {
        HandleView {
            last_touched: now,
            snapshot_version: version,
            dirty: false,
            body,
            closing: false,
            ..self
        }
    }

    /// The content could not be written back, and stays.
    pub open spec fn restored(self, body: BodyView, now: u64) -> HandleView {
        HandleView { last_touched: now, body, closing: false, ..self }
    }

    /// Nobody has touched the handle for the time `timeout`.
    pub open spec fn idle(self, now: u64, timeout: u64) -> bool {
        &&& !self.closing
        &&& (if now >= self.last_touched {
            now - self.last_touched
        } else {
            0
        }) >= timeout
    }
}

/// The content of the handle has been spilled to `file`.
pub open spec fn is_spilled_to(h: HandleView, file: Seq<char>) -> bool {
    h.body matches BodyView::Spilled { path, .. } && path == file
}

/// The content of some handle has been spilled to `file`.
pub open spec fn is_spilled_file(table: Map<Seq<char>, HandleView>, file: Seq<char>) -> bool {
    exists|id: Seq<char>| #[trigger] table.contains_key(id) && is_spilled_to(table[id], file)
}

/// The table once the idle handles are dealt with: clean ones are gone, dirty ones are closing.
pub open spec fn after_sweep(table: Map<Seq<char>, HandleView>, now: u64, timeout: u64) -> Map<
    Seq<char>,
    HandleView,
> {
    Map::new(
        |id: Seq<char>| table.contains_key(id) && !(table[id].idle(now, timeout)
            && !table[id].dirty),
        |id: Seq<char>|
            if table[id].idle(now, timeout) {
                table[id].closing()
            } else {
                table[id]
            },
    )
}

impl HandleTable {
    /// Every handle is there once.
    pub closed spec fn well_formed(&self) -> bool {
        distinct_ids(self.entries@)
    }

    pub fn new() -> (r: HandleTable)
        ensures
            r.well_formed(),
            r@ == Map::<Seq<char>, HandleView>::empty(),
    {
        let r = HandleTable { entries: Vec::new() };
        proof {
            assert(r@ =~= Map::<Seq<char>, HandleView>::empty());
        }
        r
    }

    fn find(&self, handle_id: &str) -> (r: Option<usize>)
        requires
            self.well_formed(),
        ensures
            match r {
                Some(i) => i < self.entries@.len() && self.entries@[i as int].handle_id@
                    == handle_id@ && self@.contains_key(handle_id@) && self@[handle_id@]
                    == self.entries@[i as int].state@,
                None => !self@.contains_key(handle_id@),
            },
    {
        let mut i: usize = 0;
        while i < self.entries.len()
            invariant
                self.well_formed(),
                i <= self.entries@.len(),
                forall|k: int|
                    0 <= k < i ==> (#[trigger] self.entries@[k]).handle_id@ != handle_id@,
            decreases self.entries@.len() - i,
        {
            if same_text(self.entries[i].handle_id.as_str(), handle_id) {
                proof {
                    lemma_entry(self.entries@, i as int);
                }
                return Some(i);
            }
            i += 1;
        }
        proof {
            if has_entry(self.entries@, handle_id@) {
                let k = entry_of(self.entries@, handle_id@);
                assert(is_entry(self.entries@, handle_id@, k));
            }
        }
        None
    }

    /// Takes the state of a handle out and puts another in its place.
    fn replace(&mut self, i: usize, state: HandleState) -> (r: HandleState)
        requires
            old(self).well_formed(),
            i < old(self).entries@.len(),
        ensures
            final(self).well_formed(),
            r == old(self).entries@[i as int].state,
            final(self)@ == old(self)@.insert(old(self).entries@[i as int].handle_id@, state@),
            final(self).entries@.len() == old(self).entries@.len(),
            final(self).entries@[i as int].handle_id@ == old(self).entries@[i as int].handle_id@,
            final(self).entries@[i as int].state == state,
    {
        let ghost before = self.entries@;
        let e = self.entries.remove(i);
        let handle_id = e.handle_id;
        let ghost id = handle_id@;
        let ghost entry = HandleEntry { handle_id, state };
        self.entries.insert(i, HandleEntry { handle_id, state });
        proof {
            assert(self.entries@ =~= before.update(i as int, entry));
            lemma_update(before, i as int, entry);
        }
        e.state
    }

    fn check(&self, handle_id: &str, workspace_id: &str, access: Access) -> (r: Result<
        usize,
        Status,
    >)
        requires
            self.well_formed(),
        ensures
            match r {
                Ok(i) => refusal(self@, handle_id@, workspace_id@, access) is None && i
                    < self.entries@.len() && self.entries@[i as int].handle_id@ == handle_id@
                    && self@.contains_key(handle_id@) && self@[handle_id@]
                    == self.entries@[i as int].state@,
                Err(e) => refusal(self@, handle_id@, workspace_id@, access) == Some(e@),
            },
    {
        let i = match self.find(handle_id) {
            Some(i) => i,
            None => {
                return Err(Status::new(Code::NotFound, "handle_id not found"));
            },
        };
        let h = &self.entries[i].state;
        if !same_text(h.workspace_id.as_str(), workspace_id) {
            return Err(Status::new(Code::PermissionDenied, "handle does not belong to workspace"));
        }
        if h.closing {
            return Err(Status::new(Code::FailedPrecondition, "handle is currently closing"));
        }
        match access {
            Access::Read => {
                if !h.mode.allows_read() {
                    return Err(Status::new(Code::FailedPrecondition, "handle is write-only"));
                }
            },
            Access::Write => {
                if !h.mode.allows_write() {
                    return Err(Status::new(Code::FailedPrecondition, "handle is read-only"));
                }
            },
            Access::Any => {},
        }
        Ok(i)
    }

    /// Adds a handle that has just been opened.
    pub fn open(&mut self, handle_id: String, state: HandleState)
        requires
            old(self).well_formed(),
        ensures
            final(self).well_formed(),
            final(self)@ == old(self)@.insert(handle_id@, state@),
    {
        match self.find(handle_id.as_str()) {
            Some(i) => {
                self.replace(i, state);
            },
            None => {
                let ghost e = HandleEntry { handle_id, state };
                proof {
                    lemma_push(self.entries@, e);
                }
                self.entries.push(HandleEntry { handle_id, state });
            },
        }
    }

    /// The node that a handle is open on.
    pub fn node_of(&self, handle_id: &str) -> (r: Result<String, Status>)
        requires
            self.well_formed(),
        ensures
            answers(
                r,
                if self@.contains_key(handle_id@) {
                    Ok(self@[handle_id@].node_id)
                } else {
                    Err(status_of(Code::NotFound, "handle_id not found"@))
                },
            ),
    {
        match self.find(handle_id) {
            Some(i) => Ok(self.entries[i].state.node_id.clone()),
            None => Err(Status::new(Code::NotFound, "handle_id not found")),
        }
    }

    /// A handle as it is.
    pub fn get(&self, handle_id: &str) -> (r: Option<&HandleState>)
        requires
            self.well_formed(),
        ensures
            match r {
                Some(h) => self@.contains_key(handle_id@) && self@[handle_id@] == h@,
                None => !self@.contains_key(handle_id@),
            },
    {
        match self.find(handle_id) {
            Some(i) => Some(&self.entries[i].state),
            None => None,
        }
    }

    /// How many handles are open.
    pub fn len(&self) -> (r: usize)
        requires
            self.well_formed(),
        ensures
            self@.dom().finite(),
            r == self@.len(),
    {
        proof {
            lemma_table_size(self.entries@);
        }
        self.entries.len()
    }

    /// The files that contents have been spilled to.
    pub fn spilled_files(&self) -> (r: Vec<String>)
        requires
            self.well_formed(),
        ensures
            forall|file: Seq<char>| #[trigger]
                texts(r@).contains(file) <==> is_spilled_file(self@, file),
    {
        let mut out: Vec<String> = Vec::new();
        let mut i: usize = 0;
        while i < self.entries.len()
            invariant
                i <= self.entries@.len(),
                forall|file: Seq<char>| #[trigger]
                    texts(out@).contains(file) <==> exists|k: int|
                        0 <= k < i && #[trigger] is_spilled_to(self.entries@[k].state@, file),
            decreases self.entries@.len() - i,
        {
            let ghost before = texts(out@);
            if let HandleBody::Spilled { len: _, path } = &self.entries[i].state.body {
                out.push(path.clone());
                proof {
                    assert(texts(out@) =~= before.push(path@));
                }
            }
            proof {
                assert forall|file: Seq<char>| #[trigger] texts(out@).contains(file) <==> exists|
                    k: int,
                |
                    0 <= k < i + 1 && #[trigger] is_spilled_to(self.entries@[k].state@, file) by {
                    if texts(out@).contains(file) {
                        if before.contains(file) {
                            let k = choose|k: int|
                                0 <= k < i && #[trigger] is_spilled_to(
                                    self.entries@[k].state@,
                                    file,
                                );
                            assert(is_spilled_to(self.entries@[k].state@, file));
                        } else {
                            assert(is_spilled_to(self.entries@[i as int].state@, file));
                        }
                    }
                    if exists|k: int|
                        0 <= k < i + 1 && #[trigger] is_spilled_to(
                            self.entries@[k].state@,
                            file,
                        ) {
                        let k = choose|k: int|
                            0 <= k < i + 1 && #[trigger] is_spilled_to(
                                self.entries@[k].state@,
                                file,
                            );
                        if k < i {
                            assert(before.contains(file));
                            let j = choose|j: int| 0 <= j < before.len() && before[j] == file;
                            assert(texts(out@)[j] == file);
                        } else {
                            assert(texts(out@)[before.len() as int] == file);
                        }
                    }
                }
            }
            i += 1;
        }
        proof {
            assert forall|file: Seq<char>| #[trigger] texts(out@).contains(file)
                <==> is_spilled_file(self@, file) by {
                if texts(out@).contains(file) {
                    let k = choose|k: int|
                        0 <= k < i && #[trigger] is_spilled_to(self.entries@[k].state@, file);
                    lemma_entry(self.entries@, k);
                    assert(is_spilled_to(self@[self.entries@[k].handle_id@], file));
                }
                if is_spilled_file(self@, file) {
                    let id = choose|id: Seq<char>| #[trigger]
                        self@.contains_key(id) && is_spilled_to(self@[id], file);
                    let k = entry_of(self.entries@, id);
                    assert(is_entry(self.entries@, id, k));
                    lemma_entry(self.entries@, k);
                    assert(is_spilled_to(self.entries@[k].state@, file));
                }
            }
        }
        out
    }

    /// The file that a handle's content has been spilled to, if it has been.
    pub fn spilled_file(&self, handle_id: &str) -> (r: Option<String>)
        requires
            self.well_formed(),
        ensures
            match r {
                Some(file) => self@.contains_key(handle_id@) && (self@[handle_id@].body matches
                    BodyView::Spilled { path, .. } && path == file@),
                None => self@.contains_key(handle_id@) ==> self@[handle_id@].body is Memory,
            },
    {
        match self.find(handle_id) {
            Some(i) => match &self.entries[i].state.body {
                HandleBody::Spilled { len: _, path } => Some(path.clone()),
                HandleBody::Memory(_) => None,
            },
            None => None,
        }
    }

    /// Takes the body of a handle out for a read, a write or a truncation.
    pub fn begin(&mut self, handle_id: &str, workspace_id: &str, access: Access) -> (r: Result<
        HandleBody,
        Status,
    >)
        requires
            old(self).well_formed(),
        ensures
            final(self).well_formed(),
            match refusal(old(self)@, handle_id@, workspace_id@, access) {
                Some(e) => answers(r, Err(e)) && final(self)@ == old(self)@,
                None => answers(r, Ok(old(self)@[handle_id@].body)) && final(self)@
                    == old(self)@.insert(handle_id@, old(self)@[handle_id@].borrowed()),
            },
    {
        let i = match self.check(handle_id, workspace_id, access) {
            Ok(i) => i,
            Err(e) => {
                return Err(e);
            },
        };
        let h = &self.entries[i].state;
        let empty = HandleState {
            workspace_id: h.workspace_id.clone(),
            node_id: h.node_id.clone(),
            mode: h.mode,
            snapshot_version: h.snapshot_version,
            body: HandleBody::empty(),
            dirty: h.dirty,
            last_touched: h.last_touched,
            closing: h.closing,
        };
        let taken = self.replace(i, empty);
        Ok(taken.body)
    }

    /// Puts the body back behind a read; the handle may be gone by then.
    pub fn finish_read(&mut self, handle_id: &str, body: HandleBody, ok: bool, now: u64) -> (r:
        Result<(), Status>)
        requires
            old(self).well_formed(),
        ensures
            final(self).well_formed(),
            if old(self)@.contains_key(handle_id@) {
                r is Ok && final(self)@ == old(self)@.insert(
                    handle_id@,
                    old(self)@[handle_id@].after_read(body@, ok, now),
                )
            } else {
                r matches Err(e) && e@ == status_of(Code::NotFound, "handle_id not found"@)
                    && final(self)@ == old(self)@
            },
    {
        match self.find(handle_id) {
            Some(i) => {
                let h = &self.entries[i].state;
                let state = HandleState {
                    workspace_id: h.workspace_id.clone(),
                    node_id: h.node_id.clone(),
                    mode: h.mode,
                    snapshot_version: h.snapshot_version,
                    body,
                    dirty: h.dirty,
                    last_touched: if ok {
                        now
                    } else {
                        h.last_touched
                    },
                    closing: h.closing,
                };
                self.replace(i, state);
                Ok(())
            },
            None => Err(Status::new(Code::NotFound, "handle_id not found")),
        }
    }

    /// Puts the body back behind a write or a truncation. A handle that is gone stays gone.
    pub fn finish_change(&mut self, handle_id: &str, body: HandleBody, ok: bool, now: u64)
        requires
            old(self).well_formed(),
        ensures
            final(self).well_formed(),
            final(self)@ == if old(self)@.contains_key(handle_id@) {
                old(self)@.insert(
                    handle_id@,
                    old(self)@[handle_id@].after_change(body@, ok, now),
                )
            } else {
                old(self)@
            },
    {
        match self.find(handle_id) {
            Some(i) => {
                let h = &self.entries[i].state;
                let state = HandleState {
                    workspace_id: h.workspace_id.clone(),
                    node_id: h.node_id.clone(),
                    mode: h.mode,
                    snapshot_version: h.snapshot_version,
                    body,
                    dirty: h.dirty || ok,
                    last_touched: if ok {
                        now
                    } else {
                        h.last_touched
                    },
                    closing: h.closing,
                };
                self.replace(i, state);
            },
            None => {},
        }
    }

    /// Takes the content out for writing it back, and closes the handle to others meanwhile.
    fn close_for_flush(&mut self, i: usize, now: u64, touch: bool) -> (r: FlushJob)
        requires
            old(self).well_formed(),
            i < old(self).entries@.len(),
        ensures
            final(self).well_formed(),
            r.is_of(old(self).entries@[i as int].state@),
            final(self)@ == old(self)@.insert(
                old(self).entries@[i as int].handle_id@,
                (if touch {
                    old(self).entries@[i as int].state@.touched(now)
                } else {
                    old(self).entries@[i as int].state@
                }).borrowed().closing(),
            ),
    {
        let h = &self.entries[i].state;
        let empty = HandleState {
            workspace_id: h.workspace_id.clone(),
            node_id: h.node_id.clone(),
            mode: h.mode,
            snapshot_version: h.snapshot_version,
            body: HandleBody::empty(),
            dirty: h.dirty,
            last_touched: if touch {
                now
            } else {
                h.last_touched
            },
            closing: true,
        };
        let taken = self.replace(i, empty);
        FlushJob {
            workspace_id: taken.workspace_id,
            node_id: taken.node_id,
            mode: taken.mode,
            snapshot_version: taken.snapshot_version,
            body: taken.body,
        }
    }

    /// Changes the time stamp and the closing mark of a handle.
    fn mark(&mut self, i: usize, now: u64, touch: bool, closing: bool)
        requires
            old(self).well_formed(),
            i < old(self).entries@.len(),
        ensures
            final(self).well_formed(),
            final(self)@ == old(self)@.insert(
                old(self).entries@[i as int].handle_id@,
                HandleView {
                    last_touched: if touch {
                        now
                    } else {
                        old(self).entries@[i as int].state@.last_touched
                    },
                    closing,
                    ..old(self).entries@[i as int].state@
                },
            ),
            final(self).entries@.len() == old(self).entries@.len(),
    {
        let ghost before = self.entries@;
        let e = &mut self.entries[i];
        if touch {
            e.state.last_touched = now;
        }
        e.state.closing = closing;
        proof {
            assert(self.entries@ =~= before.update(i as int, self.entries@[i as int]));
            lemma_update(before, i as int, self.entries@[i as int]);
        }
    }

    /// Begins a flush.
    pub fn begin_flush(&mut self, handle_id: &str, workspace_id: &str, now: u64) -> (r: Result<
        FlushStart,
        Status,
    >)
        requires
            old(self).well_formed(),
        ensures
            final(self).well_formed(),
            match refusal(old(self)@, handle_id@, workspace_id@, Access::Any) {
                Some(e) => r matches Err(s) && s@ == e && final(self)@ == old(self)@,
                None => {
                    let h = old(self)@[handle_id@];
                    if h.dirty {
                        &&& r matches Ok(FlushStart::Dirty(job))
                        &&& job.is_of(h)
                        &&& final(self)@ == old(self)@.insert(handle_id@, h.borrowed().closing())
                    } else {
                        &&& r matches Ok(FlushStart::Clean { workspace_id: w, node_id: n })
                        &&& w@ == h.workspace_id
                        &&& n@ == h.node_id
                        &&& final(self)@ == old(self)@.insert(handle_id@, h.touched(now))
                    }
                },
            },
    {
        let i = match self.check(handle_id, workspace_id, Access::Any) {
            Ok(i) => i,
            Err(e) => {
                return Err(e);
            },
        };
        if self.entries[i].state.dirty {
            Ok(FlushStart::Dirty(self.close_for_flush(i, now, false)))
        } else {
            let workspace_id = self.entries[i].state.workspace_id.clone();
            let node_id = self.entries[i].state.node_id.clone();
            self.mark(i, now, true, false);
            Ok(FlushStart::Clean { workspace_id, node_id })
        }
    }

    /// Begins a release.
    pub fn begin_release(&mut self, handle_id: &str, workspace_id: &str, now: u64) -> (r: Result<
        ReleaseStart,
        Status,
    >)
        requires
            old(self).well_formed(),
        ensures
            final(self).well_formed(),
            match refusal(old(self)@, handle_id@, workspace_id@, Access::Any) {
                Some(e) => r matches Err(s) && s@ == e && final(self)@ == old(self)@,
                None => {
                    let h = old(self)@[handle_id@];
                    if h.dirty {
                        &&& r matches Ok(ReleaseStart::Dirty(job))
                        &&& job.is_of(h)
                        &&& final(self)@ == old(self)@.insert(
                            handle_id@,
                            h.touched(now).borrowed().closing(),
                        )
                    } else {
                        &&& r matches Ok(ReleaseStart::Clean { snapshot_version })
                        &&& snapshot_version == h.snapshot_version
                        &&& final(self)@ == old(self)@.insert(
                            handle_id@,
                            h.touched(now).closing(),
                        )
                    }
                },
            },
    {
        let i = match self.check(handle_id, workspace_id, Access::Any) {
            Ok(i) => i,
            Err(e) => {
                return Err(e);
            },
        };
        if self.entries[i].state.dirty {
            Ok(ReleaseStart::Dirty(self.close_for_flush(i, now, true)))
        } else {
            let snapshot_version = self.entries[i].state.snapshot_version;
            self.mark(i, now, true, true);
            Ok(ReleaseStart::Clean { snapshot_version })
        }
    }

    /// The content of a handle was written back, as this version, and has been read again.
    pub fn finish_flush(&mut self, handle_id: &str, version: u64, body: HandleBody, now: u64)
        requires
            old(self).well_formed(),
        ensures
            final(self).well_formed(),
            final(self)@ == if old(self)@.contains_key(handle_id@) {
                old(self)@.insert(
                    handle_id@,
                    old(self)@[handle_id@].flushed(version, body@, now),
                )
            } else {
                old(self)@
            },
    {
        match self.find(handle_id) {
            Some(i) => {
                let h = &self.entries[i].state;
                let state = HandleState {
                    workspace_id: h.workspace_id.clone(),
                    node_id: h.node_id.clone(),
                    mode: h.mode,
                    snapshot_version: version,
                    body,
                    dirty: false,
                    last_touched: now,
                    closing: false,
                };
                self.replace(i, state);
            },
            None => {},
        }
    }

    /// The content of a handle could not be written back, in a flush or in a release.
    pub fn restore(&mut self, handle_id: &str, body: HandleBody, now: u64)
        requires
            old(self).well_formed(),
        ensures
            final(self).well_formed(),
            final(self)@ == if old(self)@.contains_key(handle_id@) {
                old(self)@.insert(handle_id@, old(self)@[handle_id@].restored(body@, now))
            } else {
                old(self)@
            },
    {
        match self.find(handle_id) {
            Some(i) => {
                let h = &self.entries[i].state;
                let state = HandleState {
                    workspace_id: h.workspace_id.clone(),
                    node_id: h.node_id.clone(),
                    mode: h.mode,
                    snapshot_version: h.snapshot_version,
                    body,
                    dirty: h.dirty,
                    last_touched: now,
                    closing: false,
                };
                self.replace(i, state);
            },
            None => {},
        }
    }

    fn remove(&mut self, handle_id: &str) -> (r: Option<HandleState>)
        requires
            old(self).well_formed(),
        ensures
            final(self).well_formed(),
            final(self)@ == old(self)@.remove(handle_id@),
            match r {
                Some(h) => old(self)@.contains_key(handle_id@) && h@ == old(self)@[handle_id@],
                None => !old(self)@.contains_key(handle_id@),
            },
    {
        match self.find(handle_id) {
            Some(i) => {
                proof {
                    lemma_remove(self.entries@, i as int);
                }
                let e = self.entries.remove(i);
                Some(e.state)
            },
            None => {
                proof {
                    assert(self@.remove(handle_id@) =~= self@);
                }
                None
            },
        }
    }

    /// Ends the release of a handle whose content was written back.
    pub fn finish_dirty_release(&mut self, handle_id: &str)
        requires
            old(self).well_formed(),
        ensures
            final(self).well_formed(),
            final(self)@ == old(self)@.remove(handle_id@),
    {
        self.remove(handle_id);
    }

    /// Ends the release of a clean handle, and tells the version that it last saw.
    pub fn finish_clean_release(&mut self, handle_id: &str, snapshot_version: u64) -> (r: Result<
        u64,
        Status,
    >)
        requires
            old(self).well_formed(),
        ensures
            final(self).well_formed(),
            final(self)@ == old(self)@.remove(handle_id@),
            match r {
                Ok(v) => old(self)@.contains_key(handle_id@) && v == (if old(
                    self,
                )@[handle_id@].snapshot_version >= snapshot_version {
                    old(self)@[handle_id@].snapshot_version
                } else {
                    snapshot_version
                }),
                Err(e) => !old(self)@.contains_key(handle_id@) && e@ == status_of(
                    Code::NotFound,
                    "handle_id not found"@,
                ),
            },
    {
        match self.remove(handle_id) {
            Some(h) => {
                if h.snapshot_version >= snapshot_version {
                    Ok(h.snapshot_version)
                } else {
                    Ok(snapshot_version)
                }
            },
            None => Err(Status::new(Code::NotFound, "handle_id not found")),
        }
    }

    /// Deals with the handles that nobody has touched for the time `timeout`. Clean ones are
    /// dropped, and counted. Dirty ones are closed to others, and handed out for writing them back.
    pub fn sweep_idle(&mut self, now: u64, timeout: u64) -> (r: (usize, Vec<ExpiredDirtyHandle>))
        requires
            old(self).well_formed(),
        ensures
            final(self).well_formed(),
            final(self)@ == after_sweep(old(self)@, now, timeout),
            forall|k: int|
                0 <= k < r.1@.len() ==> {
                    let id = (#[trigger] r.1@[k]).handle_id@;
                    &&& old(self)@.contains_key(id)
                    &&& old(self)@[id].idle(now, timeout)
                    &&& old(self)@[id].dirty
                    &&& r.1@[k].job.is_of(old(self)@[id])
                },
            forall|id: Seq<char>| #[trigger]
                old(self)@.contains_key(id) && old(self)@[id].idle(now, timeout)
                    && old(self)@[id].dirty ==> exists|k: int|
                    0 <= k < r.1@.len() && (#[trigger] r.1@[k]).handle_id@ == id,
            forall|a: int, b: int|
                0 <= a < b < r.1@.len() ==> (#[trigger] r.1@[a]).handle_id@ != (
                #[trigger] r.1@[b]).handle_id@,
            old(self)@.dom().finite(),
            final(self)@.dom().finite(),
            r.0 == old(self)@.len() - final(self)@.len(),
    {
        let ghost orig = self.entries@;
        let mut kept: Vec<HandleEntry> = Vec::new();
        let mut expired: Vec<ExpiredDirtyHandle> = Vec::new();
        let mut dropped: usize = 0;
        // Where in the old table the entries that are kept, and the expired ones, come from.
        let ghost mut from: Seq<int> = Seq::empty();
        let ghost mut expired_from: Seq<int> = Seq::empty();
        let total = self.entries.len();
        proof {
            assert(orig.take(orig.len() as int) =~= orig);
        }
        while self.entries.len() > 0
            invariant
                distinct_ids(orig),
                self.entries@.len() <= orig.len(),
                self.entries@ == orig.take(self.entries@.len() as int),
                total == orig.len(),
                dropped + kept@.len() + self.entries@.len() == total,
                from.len() == kept@.len(),
                expired_from.len() == expired@.len(),
                forall|k: int|
                    0 <= k < kept@.len() ==> {
                        let j = #[trigger] from[k];
                        &&& self.entries@.len() <= j < orig.len()
                        &&& kept@[k].handle_id@ == orig[j].handle_id@
                        &&& kept@[k].state@ == (if orig[j].state@.idle(now, timeout) {
                            orig[j].state@.closing()
                        } else {
                            orig[j].state@
                        })
                        &&& !(orig[j].state@.idle(now, timeout) && !orig[j].state@.dirty)
                    },
                forall|a: int, b: int|
                    0 <= a < b < from.len() ==> #[trigger] from[a] > #[trigger] from[b],
                forall|j: int|
                    self.entries@.len() <= j < orig.len() && !(orig[j].state@.idle(now, timeout)
                        && !(#[trigger] orig[j]).state@.dirty) ==> from.contains(j),
                forall|k: int|
                    0 <= k < expired@.len() ==> {
                        let j = #[trigger] expired_from[k];
                        &&& self.entries@.len() <= j < orig.len()
                        &&& expired@[k].handle_id@ == orig[j].handle_id@
                        &&& expired@[k].job.is_of(orig[j].state@)
                        &&& orig[j].state@.idle(now, timeout)
                        &&& orig[j].state@.dirty
                    },
                forall|j: int|
                    self.entries@.len() <= j < orig.len() && orig[j].state@.idle(now, timeout)
                        && (#[trigger] orig[j]).state@.dirty ==> expired_from.contains(j),
                forall|a: int, b: int|
                    0 <= a < b < expired_from.len() ==> #[trigger] expired_from[a]
                        > #[trigger] expired_from[b],
            decreases self.entries@.len(),
        {
            let ghost n = self.entries@.len() - 1;
            let ghost old_from = from;
            let ghost old_expired_from = expired_from;
            let mut e = self.entries.pop().unwrap();
            proof {
                assert(e == orig[n]);
                assert(self.entries@ =~= orig.take(n));
            }
            let h = &e.state;
            let age: u64 = now.saturating_sub(h.last_touched);
            let idle = !h.closing && age >= timeout;
            if idle && !h.dirty {
                dropped += 1;
            } else {
                if idle {
                    expired.push(
                        ExpiredDirtyHandle {
                            handle_id: e.handle_id.clone(),
                            job: FlushJob {
                                workspace_id: h.workspace_id.clone(),
                                node_id: h.node_id.clone(),
                                mode: h.mode,
                                snapshot_version: h.snapshot_version,
                                body: h.body.snapshot(),
                            },
                        },
                    );
                    e.state.closing = true;
                    proof {
                        expired_from = expired_from.push(n);
                        assert(expired_from[expired_from.len() - 1] == n);
                    }
                }
                kept.push(e);
                proof {
                    from = from.push(n);
                    assert(from[from.len() - 1] == n);
                }
            }
            proof {
                assert forall|j: int|
                    self.entries@.len() <= j < orig.len() && !(orig[j].state@.idle(now, timeout)
                        && !(#[trigger] orig[j]).state@.dirty) implies from.contains(j) by {
                    if j > n {
                        assert(old_from.contains(j));
                        let k = choose|k: int| 0 <= k < old_from.len() && old_from[k] == j;
                        assert(from[k] == j);
                    }
                }
                assert forall|j: int|
                    self.entries@.len() <= j < orig.len() && orig[j].state@.idle(now, timeout)
                        && (#[trigger] orig[j]).state@.dirty implies expired_from.contains(j) by {
                    if j > n {
                        assert(old_expired_from.contains(j));
                        let k = choose|k: int|
                            0 <= k < old_expired_from.len() && old_expired_from[k] == j;
                        assert(expired_from[k] == j);
                    }
                }
            }
        }
        self.entries = kept;
        proof {
            lemma_swept(orig, self.entries@, from, now, timeout);
            lemma_table_size(orig);
            lemma_table_size(self.entries@);
            assert forall|a: int, b: int| 0 <= a < b < expired@.len() implies (
            #[trigger] expired@[a]).handle_id@ != (#[trigger] expired@[b]).handle_id@ by {
                assert(expired_from[a] > expired_from[b]);
                assert(expired@[a].handle_id@ == orig[expired_from[a]].handle_id@);
                assert(expired@[b].handle_id@ == orig[expired_from[b]].handle_id@);
            }
            assert forall|k: int| 0 <= k < expired@.len() implies {
                let id = (#[trigger] expired@[k]).handle_id@;
                &&& table_map(orig).contains_key(id)
                &&& table_map(orig)[id].idle(now, timeout)
                &&& table_map(orig)[id].dirty
                &&& expired@[k].job.is_of(table_map(orig)[id])
            } by {
                lemma_entry(orig, expired_from[k]);
            }
            assert forall|id: Seq<char>| #[trigger]
                table_map(orig).contains_key(id) && table_map(orig)[id].idle(now, timeout)
                    && table_map(orig)[id].dirty implies exists|k: int|
                0 <= k < expired@.len() && (#[trigger] expired@[k]).handle_id@ == id by {
                let j = entry_of(orig, id);
                assert(is_entry(orig, id, j));
                lemma_entry(orig, j);
                assert(expired_from.contains(j));
                let k = choose|k: int| 0 <= k < expired_from.len() && expired_from[k] == j;
                assert(expired@[k].handle_id@ == id);
            }
        }
        (dropped, expired)
    }

    /// An expired handle was written back in the background: it is dropped if it is still closing.
    pub fn finish_expired(&mut self, handle_id: &str) -> (r: bool)
        requires
            old(self).well_formed(),
        ensures
            final(self).well_formed(),
            r == (old(self)@.contains_key(handle_id@) && old(self)@[handle_id@].closing),
            final(self)@ == if r {
                old(self)@.remove(handle_id@)
            } else {
                old(self)@
            },
    {
        match self.find(handle_id) {
            Some(i) => {
                if self.entries[i].state.closing {
                    self.remove(handle_id);
                    true
                } else {
                    false
                }
            },
            None => false,
        }
    }

    /// An expired handle could not be written back: it is open again.
    pub fn reopen_expired(&mut self, handle_id: &str, now: u64)
        requires
            old(self).well_formed(),
        ensures
            final(self).well_formed(),
            final(self)@ == if old(self)@.contains_key(handle_id@) {
                old(self)@.insert(
                    handle_id@,
                    HandleView { last_touched: now, closing: false, ..old(self)@[handle_id@] },
                )
            } else {
                old(self)@
            },
    {
        match self.find(handle_id) {
            Some(i) => {
                self.mark(i, now, true, false);
            },
            None => {},
        }
    }
}

proof fn lemma_swept(
    orig: Seq<HandleEntry>,
    kept: Seq<HandleEntry>,
    from: Seq<int>,
    now: u64,
    timeout: u64,
)
    requires
        distinct_ids(orig),
        from.len() == kept.len(),
        forall|k: int|
            0 <= k < kept.len() ==> {
                let j = #[trigger] from[k];
                &&& 0 <= j < orig.len()
                &&& kept[k].handle_id@ == orig[j].handle_id@
                &&& kept[k].state@ == (if orig[j].state@.idle(now, timeout) {
                    orig[j].state@.closing()
                } else {
                    orig[j].state@
                })
                &&& !(orig[j].state@.idle(now, timeout) && !orig[j].state@.dirty)
            },
        forall|a: int, b: int| 0 <= a < b < from.len() ==> #[trigger] from[a] > #[trigger] from[b],
        forall|j: int|
            0 <= j < orig.len() && !(orig[j].state@.idle(now, timeout) && !(
            #[trigger] orig[j]).state@.dirty) ==> from.contains(j),
    ensures
        distinct_ids(kept),
        table_map(kept) == after_sweep(table_map(orig), now, timeout),
{
    assert forall|a: int, b: int|
        0 <= a < kept.len() && 0 <= b < kept.len() && #[trigger] kept[a].handle_id@
            == #[trigger] kept[b].handle_id@ implies a == b by {
        assert(orig[from[a]].handle_id@ == orig[from[b]].handle_id@);
        assert(from[a] == from[b]);
    }
    let m = table_map(kept);
    let t = table_map(orig);
    let want = after_sweep(t, now, timeout);
    assert forall|id: Seq<char>| #[trigger] m.contains_key(id) <==> want.contains_key(id) by {
        if m.contains_key(id) {
            let k = entry_of(kept, id);
            assert(is_entry(kept, id, k));
            lemma_entry(orig, from[k]);
        }
        if want.contains_key(id) {
            let j = entry_of(orig, id);
            assert(is_entry(orig, id, j));
            lemma_entry(orig, j);
            assert(from.contains(j));
            let k = choose|k: int| 0 <= k < from.len() && from[k] == j;
            assert(is_entry(kept, id, k));
        }
    }
    assert forall|id: Seq<char>| #[trigger] m.contains_key(id) implies m[id] == want[id] by {
        let k = entry_of(kept, id);
        assert(is_entry(kept, id, k));
        lemma_entry(kept, k);
        lemma_entry(orig, from[k]);
        assert(want.contains_key(id));
    }
    assert(m =~= want);
}

// ---------------------------------------------------------------------------
// What holds of handles
// ---------------------------------------------------------------------------

/// No sweep loses what was written: a dirty handle stays, and keeps its content.
pub proof fn lemma_sweep_keeps_dirty(
    table: Map<Seq<char>, HandleView>,
    now: u64,
    timeout: u64,
    id: Seq<char>,
)
    requires
        table.contains_key(id),
        table[id].dirty,
    ensures
        after_sweep(table, now, timeout).contains_key(id),
        after_sweep(table, now, timeout)[id].dirty,
        after_sweep(table, now, timeout)[id].body == table[id].body,
        after_sweep(table, now, timeout)[id].snapshot_version == table[id].snapshot_version,
{
}

/// A sweep right behind another finds nothing to do.
pub proof fn lemma_sweep_is_idempotent(
    table: Map<Seq<char>, HandleView>,
    now: u64,
    timeout: u64,
)
    ensures
        after_sweep(after_sweep(table, now, timeout), now, timeout) == after_sweep(
            table,
            now,
            timeout,
        ),
{
    let once = after_sweep(table, now, timeout);
    assert(after_sweep(once, now, timeout) =~= once);
}

/// While a handle is being written back, every request on it is refused.
pub proof fn lemma_closing_refuses(
    table: Map<Seq<char>, HandleView>,
    id: Seq<char>,
    workspace_id: Seq<char>,
    access: Access,
)
    requires
        table.contains_key(id),
    ensures
        refusal(
            table.insert(id, table[id].borrowed().closing()),
            id,
            workspace_id,
            access,
        ) is Some,
{
}

/// A flush or a release that fails leaves the handle as it was, but for the time of the attempt:
/// it is open, dirty, and holds what it held.
pub proof fn lemma_failed_flush_loses_nothing(h: HandleView, now: u64, later: u64)
    requires
        !h.closing,
    ensures
        h.borrowed().closing().restored(h.body, later) == h.touched(later),
        h.touched(now).borrowed().closing().restored(h.body, later) == h.touched(later),
{
}

/// A read that takes the body out and puts it back changes nothing but the time of the last touch.
pub proof fn lemma_read_leaves_handle(h: HandleView, ok: bool, now: u64)
    ensures
        h.borrowed().after_read(h.body, ok, now) == (if ok {
            h.touched(now)
        } else {
            h
        }),
{
}

/// A handle that has been flushed is clean, in the version that the flush made.
pub proof fn lemma_flushed_is_clean(h: HandleView, version: u64, body: BodyView, now: u64)
    ensures
        !h.borrowed().closing().flushed(version, body, now).dirty,
        !h.borrowed().closing().flushed(version, body, now).closing,
        h.borrowed().closing().flushed(version, body, now).snapshot_version == version,
        h.borrowed().closing().flushed(version, body, now).body == body,
{
}

/// A handle can be used exactly where it is there, is of the workspace, is not being closed, and is
/// open for what is asked of it.
pub proof fn lemma_who_may_use_a_handle(
    table: Map<Seq<char>, HandleView>,
    id: Seq<char>,
    workspace_id: Seq<char>,
    access: Access,
)
    ensures
        ({
            let h = table[id];
            let r = refusal(table, id, workspace_id, access);
            let may = match access {
                Access::Any => true,
                Access::Read => h.mode == HandleMode::Read || h.mode == HandleMode::ReadWrite,
                Access::Write => h.mode == HandleMode::Write || h.mode == HandleMode::ReadWrite,
            };
            &&& r is None <==> table.contains_key(id) && h.workspace_id == workspace_id && !h.closing
                && may
            &&& !table.contains_key(id) ==> r is Some && r->0.code == Code::NotFound
            &&& table.contains_key(id) && h.workspace_id != workspace_id ==> r is Some && r->0.code
                == Code::PermissionDenied
            &&& table.contains_key(id) && h.workspace_id == workspace_id && r is Some ==> r->0.code
                == Code::FailedPrecondition
        }),
{
}

/// A change that succeeded leaves the new content, to be written back; one that failed leaves the
/// content that it is given, and what was to be written back before still is.
pub proof fn lemma_changes_are_written_back(h: HandleView, body: BodyView, ok: bool, now: u64)
    ensures
        h.after_change(body, ok, now).body == body,
        ok ==> h.after_change(body, ok, now).dirty && h.after_change(body, ok, now).last_touched
            == now,
        h.dirty ==> h.after_change(body, ok, now).dirty,
        !ok ==> h.after_change(body, ok, now).dirty == h.dirty && h.after_change(
            body,
            ok,
            now,
        ).last_touched == h.last_touched,
        h.after_read(body, ok, now).body == body,
        h.after_read(body, ok, now).dirty == h.dirty,
        ok ==> h.after_read(body, ok, now).last_touched == now,
        !ok ==> h.after_read(body, ok, now).last_touched == h.last_touched,
{
}

/// Nothing that is done to a handle changes whose it is, what it is open on, or for what.
pub proof fn lemma_handles_stay_what_they_are(
    h: HandleView,
    body: BodyView,
    ok: bool,
    version: u64,
    now: u64,
)
    ensures
        ({
            let same = |g: HandleView|
                g.workspace_id == h.workspace_id && g.node_id == h.node_id && g.mode == h.mode;
            &&& same(h.borrowed()) && same(h.after_read(body, ok, now)) && same(
                h.after_change(body, ok, now),
            ) && same(h.touched(now)) && same(h.closing()) && same(h.flushed(version, body, now))
                && same(h.restored(body, now))
            &&& h.borrowed().snapshot_version == h.snapshot_version
            &&& h.after_read(body, ok, now).snapshot_version == h.snapshot_version
            &&& h.after_change(body, ok, now).snapshot_version == h.snapshot_version
            &&& h.restored(body, now).snapshot_version == h.snapshot_version
            &&& h.after_change(body, ok, now).closing == h.closing
            &&& h.after_read(body, ok, now).closing == h.closing
            &&& h.closing().closing && h.closing().dirty == h.dirty && h.closing().body == h.body
            &&& h.touched(now).last_touched == now && h.touched(now).body == h.body
                && h.touched(now).dirty == h.dirty
            &&& h.borrowed().dirty == h.dirty && h.borrowed().closing == h.closing
            &&& h.restored(body, now).body == body && h.restored(body, now).dirty == h.dirty
                && !h.restored(body, now).closing
            &&& h.flushed(version, body, now).last_touched == now
        }),
{
}

/// A handle is idle where it is not being closed and nobody used it for as long as the timeout.
pub proof fn lemma_idle_handles(h: HandleView, now: u64, timeout: u64)
    ensures
        h.closing ==> !h.idle(now, timeout),
        !h.closing && now >= h.last_touched ==> (h.idle(now, timeout) <==> now - h.last_touched
            >= timeout),
        !h.closing && now < h.last_touched && timeout > 0 ==> !h.idle(now, timeout),
{
}

/// A sweep takes away exactly the idle handles with nothing to write back, sets those that have
/// something to closing, and leaves all others alone.
pub proof fn lemma_what_a_sweep_does(
    table: Map<Seq<char>, HandleView>,
    now: u64,
    timeout: u64,
    id: Seq<char>,
)
    ensures
        ({
            let t = after_sweep(table, now, timeout);
            let idle = table[id].idle(now, timeout);
            &&& t.contains_key(id) <==> table.contains_key(id) && !(idle && !table[id].dirty)
            &&& table.contains_key(id) && idle && table[id].dirty ==> t[id].closing && t[id].body
                == table[id].body && t[id].node_id == table[id].node_id && t[id].workspace_id
                == table[id].workspace_id
            &&& table.contains_key(id) && !idle ==> t[id] == table[id]
        }),
{
}

/// What is written back is what the handle held, under the version that it was opened at.
pub proof fn lemma_job_is_of_handle(job: FlushJob, h: HandleView)
    requires
        job.is_of(h),
    ensures
        job.workspace_id@ == h.workspace_id,
        job.node_id@ == h.node_id,
        job.mode == h.mode,
        job.snapshot_version == h.snapshot_version,
        job.body@ == h.body,
{
}

/// A file is in use where the content of some handle was spilled to it.
pub proof fn lemma_files_in_use(table: Map<Seq<char>, HandleView>, file: Seq<char>, len: u64)
    ensures
        forall|id: Seq<char>| #[trigger]
            table.contains_key(id) && table[id].body == (BodyView::Spilled { len, path: file })
                ==> is_spilled_file(table, file),
        is_spilled_file(table, file) ==> exists|id: Seq<char>| #[trigger]
            table.contains_key(id) && table[id].body is Spilled && table[id].body->path == file,
{
    assert forall|id: Seq<char>| #[trigger]
        table.contains_key(id) && table[id].body == (BodyView::Spilled {
            len,
            path: file,
        }) implies is_spilled_file(table, file) by {
        assert(is_spilled_to(table[id], file));
    }
    if is_spilled_file(table, file) {
        let id = choose|id: Seq<char>| #[trigger]
            table.contains_key(id) && is_spilled_to(table[id], file);
        assert(table[id].body->path == file);
    }
}

} // verus!

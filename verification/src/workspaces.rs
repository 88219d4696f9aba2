//! The workspaces of a server: where each one's index is, and the administration of them.
use crate::catalog::WorkspaceCatalogRecord;
use crate::credits::wrapped_sum;
use crate::index_error::{agrees, ErrorView, IndexError};
use crate::model::opt_string;
use crate::settings::{file_path_under, joined_file_path};
use crate::status::{answers, status_of, Code, Status, StatusView};
use crate::text::{blank, holds_text, is_blank, join2, texts, trim, trim_text};
use crate::text_order::{comes_before, lemma_text_order, lemma_text_transitive, text_less};
use vstd::prelude::*;

verus! {

/// Each workspace has a database of its own.
pub fn layout_label() -> (r: &'static str)
    ensures
        r@ == "per-workspace"@,
{
    "per-workspace"
}

// ---------------------------------------------------------------------------
// The index of a workspace
// ---------------------------------------------------------------------------

/// Where the index of a workspace is had from.
#[derive(Debug, Clone, PartialEq, Eq)]
pub enum StoreSource {
    /// It is open already, under this name.
    Open(String),
    /// It has to be opened, and is kept open under this name.
    File { workspace: String, db_path: String },
}

#[verifier::ext_equal]
pub enum StoreSourceView {
    Open(Seq<char>),
    File { workspace: Seq<char>, db_path: Seq<char> },
}

impl View for StoreSource {
    type V = StoreSourceView;

    open spec fn view(&self) -> StoreSourceView {
        match *self {
            StoreSource::Open(w) => StoreSourceView::Open(w@),
            StoreSource::File { workspace, db_path } => StoreSourceView::File {
                workspace: workspace@,
                db_path: db_path@,
            },
        }
    }
}

/// `open` are the workspaces whose index is open. `file_exists` says whether there is a file where
/// the index of this one would be; without one, an index is opened only to be made.
pub open spec fn store_source_of(
    root: Seq<char>,
    workspace_id: Seq<char>,
    open: Seq<Seq<char>>,
    create_if_missing: bool,
    file_exists: bool,
) -> Result<StoreSourceView, ErrorView> {
    let w = trim(workspace_id);
    if w.len() == 0 {
        Err(ErrorView::InvalidPath("workspace_id cannot be empty"@))
    } else if open.contains(w) {
        Ok(StoreSourceView::Open(w))
    } else if !create_if_missing && !file_exists {
        Err(ErrorView::WorkspaceNotFound(w))
    } else {
        Ok(
            StoreSourceView::File {
                workspace: w,
                db_path: joined_file_path(joined_file_path(root, w), "index.db"@),
            },
        )
    }
}

pub fn store_for_workspace(
    root: &str,
    workspace_id: &str,
    open: &Vec<String>,
    create_if_missing: bool,
    file_exists: bool,
) -> (r: Result<StoreSource, IndexError>)
    ensures
        agrees(
            r,
            store_source_of(
                root@,
                workspace_id@,
                texts(open@),
                create_if_missing,
                file_exists,
            ),
        ),
{
    let w = trim_text(workspace_id);
    if w.as_str().is_empty() {
        return Err(IndexError::InvalidPath("workspace_id cannot be empty".to_owned()));
    }
    if holds_text(open, w.as_str()) {
        return Ok(StoreSource::Open(w));
    }
    if !create_if_missing && !file_exists {
        return Err(IndexError::WorkspaceNotFound(w));
    }
    let db_path = file_path_under(file_path_under(root, w.as_str()).as_str(), "index.db");
    Ok(StoreSource::File { workspace: w, db_path })
}

// ---------------------------------------------------------------------------
// All workspaces
// ---------------------------------------------------------------------------

/// Texts in order, each of them once.
pub open spec fn in_text_order(ids: Seq<Seq<char>>) -> bool {
    forall|i: int, j: int|
        0 <= i < j < ids.len() ==> text_less(#[trigger] ids[i], #[trigger] ids[j])
}

/// An entry of the directory of the indexes.
#[derive(Debug, Clone, PartialEq, Eq)]
pub struct RootEntry {
    pub name: String,
    pub is_dir: bool,
    /// There is an `index.db` in it.
    pub has_index: bool,
}

pub open spec fn is_workspace(e: RootEntry) -> bool {
    e.is_dir && e.has_index && !is_blank(e.name@)
}

/// A workspace that is on disk or open.
pub open spec fn is_listed(entries: Seq<RootEntry>, open: Seq<Seq<char>>, id: Seq<char>) -> bool {
    ||| exists|i: int|
        0 <= i < entries.len() && is_workspace(#[trigger] entries[i]) && entries[i].name@ == id
    ||| open.contains(id)
}

/// Where `id` belongs among ids that are in order.
fn place_for(ids: &Vec<String>, id: &str) -> (r: usize)
    requires
        in_text_order(texts(ids@)),
    ensures
        r <= ids@.len(),
        forall|i: int| 0 <= i < r ==> text_less(#[trigger] texts(ids@)[i], id@),
        forall|i: int| r <= i < ids@.len() ==> !text_less(#[trigger] texts(ids@)[i], id@),
{
    let mut k: usize = 0;
    while k < ids.len() && comes_before(ids[k].as_str(), id)
        invariant
            k <= ids@.len(),
            forall|i: int| 0 <= i < k ==> text_less(#[trigger] texts(ids@)[i], id@),
        decreases ids@.len() - k,
    {
        proof {
            assert(texts(ids@)[k as int] == ids@[k as int]@);
        }
        k += 1;
    }
    proof {
        let t = texts(ids@);
        assert(t.len() == ids@.len());
        assert forall|i: int| k <= i < ids@.len() implies !text_less(#[trigger] t[i], id@) by {
            assert(t[k as int] == ids@[k as int]@);
            if i > k && text_less(t[i], id@) {
                lemma_text_transitive(t[k as int], t[i], id@);
            }
        }
    }
    k
}

fn insert_in_order(ids: &mut Vec<String>, id: &str)
    requires
        in_text_order(texts(old(ids)@)),
    ensures
        in_text_order(texts(final(ids)@)),
        forall|x: Seq<char>|
            texts(final(ids)@).contains(x) <==> (texts(old(ids)@).contains(x) || x == id@),
{
    let k: usize = place_for(ids, id);
    let ghost before = texts(ids@);
    proof {
        assert(before.len() == ids@.len());
    }
    if k < ids.len() && !comes_before(id, ids[k].as_str()) {
        proof {
            assert(before[k as int] == ids@[k as int]@);
            lemma_text_order(before[k as int], id@);
            assert forall|x: Seq<char>|
                before.contains(x) <==> (before.contains(x) || x == id@) by {
                if x == id@ {
                    assert(before[k as int] == x);
                }
            }
        }
        return ;
    }
    let ghost was = ids@;
    let s = id.to_owned();
    let ghost g = s;
    ids.insert(k, s);
    proof {
        let after = texts(ids@);
        assert(ids@ == was.insert(k as int, g));
        assert(after =~= before.insert(k as int, id@));
        assert forall|i: int, j: int| 0 <= i < j < after.len() implies text_less(
            #[trigger] after[i],
            #[trigger] after[j],
        ) by {
            let a = if i < k { i } else { i - 1 };
            let b = if j < k { j } else { j - 1 };
            if i == k {
                assert(after[j] == before[j - 1]);
                if j - 1 == k {
                    assert(before[k as int] == was[k as int]@);
                } else {
                    assert(before[k as int] == was[k as int]@);
                    lemma_text_transitive(id@, before[k as int], before[j - 1]);
                }
            } else if j == k {
                assert(after[i] == before[i]);
            } else {
                assert(after[i] == before[a]);
                assert(after[j] == before[b]);
            }
        }
        assert forall|x: Seq<char>|
            after.contains(x) <==> (before.contains(x) || x == id@) by {
            if before.contains(x) {
                let i = choose|i: int| 0 <= i < before.len() && before[i] == x;
                let j = if i < k { i } else { i + 1 };
                assert(after[j] == x);
            }
            if x == id@ {
                assert(after[k as int] == x);
            }
            if after.contains(x) && x != id@ {
                let j = choose|j: int| 0 <= j < after.len() && after[j] == x;
                let i = if j < k { j } else { j - 1 };
                assert(before[i] == x);
            }
        }
    }
}

/// The workspaces that are on disk or open, in order, each of them once.
pub fn list_workspace_ids(entries: &Vec<RootEntry>, open: &Vec<String>) -> (r: Vec<String>)
    ensures
        in_text_order(texts(r@)),
        forall|id: Seq<char>|
            texts(r@).contains(id) <==> #[trigger] is_listed(entries@, texts(open@), id),
{
    let mut ids: Vec<String> = Vec::new();
    let mut i: usize = 0;
    proof {
        assert(texts(ids@) =~= Seq::empty());
    }
    while i < entries.len()
        invariant
            i <= entries@.len(),
            in_text_order(texts(ids@)),
            forall|id: Seq<char>|
                texts(ids@).contains(id) <==> #[trigger] is_listed(
                    entries@.take(i as int),
                    Seq::empty(),
                    id,
                ),
        decreases entries@.len() - i,
    {
        let ghost before = texts(ids@);
        let e = &entries[i];
        let taken = e.is_dir && e.has_index && !blank(e.name.as_str());
        if taken {
            insert_in_order(&mut ids, e.name.as_str());
        }
        proof {
            let p = entries@.take(i as int);
            let q = entries@.take(i + 1);
            assert forall|id: Seq<char>|
                texts(ids@).contains(id) <==> #[trigger] is_listed(q, Seq::empty(), id) by {
                assert(before.contains(id) <==> is_listed(p, Seq::empty(), id));
                if is_listed(p, Seq::empty(), id) {
                    let k = choose|k: int|
                        0 <= k < p.len() && is_workspace(#[trigger] p[k]) && p[k].name@ == id;
                    assert(q[k] == p[k]);
                }
                if taken && id == e.name@ {
                    assert(q[i as int] == *e);
                }
                if is_listed(q, Seq::empty(), id) {
                    let k = choose|k: int|
                        0 <= k < q.len() && is_workspace(#[trigger] q[k]) && q[k].name@ == id;
                    if k < i {
                        assert(p[k] == q[k]);
                    } else {
                        assert(q[k] == *e);
                    }
                }
            }
        }
        i += 1;
    }
    let mut j: usize = 0;
    proof {
        assert(entries@.take(i as int) =~= entries@);
        assert(texts(open@).take(0) =~= Seq::empty());
    }
    while j < open.len()
        invariant
            j <= open@.len(),
            in_text_order(texts(ids@)),
            forall|id: Seq<char>|
                texts(ids@).contains(id) <==> #[trigger] is_listed(
                    entries@,
                    texts(open@).take(j as int),
                    id,
                ),
        decreases open@.len() - j,
    {
        let ghost before = texts(ids@);
        insert_in_order(&mut ids, open[j].as_str());
        proof {
            let o = texts(open@);
            let p = o.take(j as int);
            let q = o.take(j + 1);
            assert(o[j as int] == open@[j as int]@);
            assert(q =~= p.push(o[j as int]));
            assert forall|id: Seq<char>|
                texts(ids@).contains(id) <==> #[trigger] is_listed(entries@, q, id) by {
                assert(before.contains(id) <==> is_listed(entries@, p, id));
                if p.contains(id) {
                    let k = choose|k: int| 0 <= k < p.len() && p[k] == id;
                    assert(q[k] == id);
                }
                if q.contains(id) {
                    let k = choose|k: int| 0 <= k < q.len() && q[k] == id;
                    if k < j {
                        assert(p[k] == id);
                    }
                }
                if id == o[j as int] {
                    assert(q[j as int] == id);
                }
            }
        }
        j += 1;
    }
    proof {
        assert(texts(open@).take(j as int) =~= texts(open@));
    }
    ids
}

// ---------------------------------------------------------------------------
// Administration
// ---------------------------------------------------------------------------

/// A text that has to be given, without the white space around it.
pub open spec fn given_text(value: Seq<char>, message: Seq<char>) -> Result<Seq<char>, StatusView> {
    if trim(value).len() == 0 {
        Err(status_of(Code::InvalidArgument, message))
    } else {
        Ok(trim(value))
    }
}

fn given(value: &str, message: &str) -> (r: Result<String, Status>)
    ensures
        answers(r, given_text(value@, message@)),
{
    let t = trim_text(value);
    if t.as_str().is_empty() {
        return Err(Status::new(Code::InvalidArgument, message));
    }
    Ok(t)
}

/// The name of a workspace that is to be made.
pub fn workspace_name(name: &str) -> (r: Result<String, Status>)
    ensures
        answers(r, given_text(name@, "workspace name cannot be empty"@)),
{
    given(name, "workspace name cannot be empty")
}

/// The workspace that a request for administration is about.
pub fn admin_workspace_id(workspace_id: &str) -> (r: Result<String, Status>)
    ensures
        answers(r, given_text(workspace_id@, "workspace_id cannot be empty"@)),
{
    given(workspace_id, "workspace_id cannot be empty")
}

/// A workspace that the catalog did not take is unmade, and this is said of it.
pub fn unregistered(error: &str) -> (r: Status)
    ensures
        r@ == status_of(
            Code::Internal,
            "failed to register workspace in catalog: "@ + error@,
        ),
{
    Status::new(
        Code::Internal,
        join2("failed to register workspace in catalog: ", error).as_str(),
    )
}

/// How many workspaces a page of the list holds.
pub open spec fn list_limit_of(limit: u32) -> u32 {
    if limit == 0 {
        100
    } else if limit > 1000 {
        1000
    } else {
        limit
    }
}

pub fn list_limit(limit: u32) -> (r: u32)
    ensures
        r == list_limit_of(limit),
        1 <= r <= 1000,
{
    if limit == 0 {
        100
    } else if limit > 1000 {
        1000
    } else {
        limit
    }
}

/// The id behind which the list goes on.
pub fn list_cursor(cursor: &str) -> (r: Option<String>)
    ensures
        opt_string(r) == if trim(cursor@).len() == 0 {
            None
        } else {
            Some(trim(cursor@))
        },
{
    let t = trim_text(cursor);
    if t.as_str().is_empty() {
        None
    } else {
        Some(t)
    }
}

pub open spec fn ids_of(rows: Seq<WorkspaceCatalogRecord>) -> Seq<Seq<char>> {
    rows.map_values(|r: WorkspaceCatalogRecord| r.workspace_id@)
}

/// A full page is followed by another, from its last id on; the page behind the last one is named
/// by an empty cursor.
pub open spec fn cursor_after(ids: Seq<Seq<char>>, limit: u32) -> Seq<char> {
    if ids.len() == limit && ids.len() > 0 {
        ids.last()
    } else {
        Seq::empty()
    }
}

pub fn next_list_cursor(rows: &Vec<WorkspaceCatalogRecord>, limit: u32) -> (r: String)
    ensures
        r@ == cursor_after(ids_of(rows@), limit),
{
    proof {
        assert(ids_of(rows@).len() == rows@.len());
    }
    if rows.len() as u64 == limit as u64 && rows.len() > 0 {
        proof {
            assert(ids_of(rows@).last() == rows@.last().workspace_id@);
        }
        rows[rows.len() - 1].workspace_id.clone()
    } else {
        proof {
            assert(""@ =~= Seq::<char>::empty()) by {
                reveal_strlit("");
            }
        }
        "".to_owned()
    }
}

/// The page that a catalog has behind `cursor`; an empty cursor stands for the beginning.
pub open spec fn page_behind(all: Seq<Seq<char>>, cursor: Seq<char>, limit: u32) -> Seq<Seq<char>> {
    let rest = behind(all, cursor);
    if rest.len() <= limit {
        rest
    } else {
        rest.take(limit as int)
    }
}

/// The ids behind `cursor`.
pub open spec fn behind(all: Seq<Seq<char>>, cursor: Seq<char>) -> Seq<Seq<char>>
    decreases all.len(),
{
    if all.len() == 0 || cursor.len() == 0 || text_less(cursor, all[0]) {
        all
    } else {
        behind(all.drop_first(), cursor)
    }
}

proof fn lemma_behind(all: Seq<Seq<char>>, k: int)
    requires
        in_text_order(all),
        0 <= k < all.len(),
        all[k].len() > 0,
    ensures
        behind(all, all[k]) == all.skip(k + 1),
    decreases all.len(),
{
    let rest = all.drop_first();
    lemma_text_order(all[k], all[0]);
    if k > 0 {
        assert(text_less(all[0], all[k]));
        assert(rest[k - 1] == all[k]);
        assert forall|i: int, j: int| 0 <= i < j < rest.len() implies text_less(
            #[trigger] rest[i],
            #[trigger] rest[j],
        ) by {
            assert(rest[i] == all[i + 1]);
            assert(rest[j] == all[j + 1]);
        }
        lemma_behind(rest, k - 1);
        assert(rest.skip(k) =~= all.skip(k + 1));
    } else {
        assert(rest =~= all.skip(1));
        if rest.len() > 0 {
            assert(rest[0] == all[1]);
            assert(text_less(all[0], all[1]));
        }
        assert(behind(rest, all[0]) == rest);
    }
}

/// What a reader sees who follows the cursors.
pub open spec fn listing_from(all: Seq<Seq<char>>, at: int, limit: u32) -> Seq<Seq<char>>
    decreases all.len() - at,
{
    let cursor = if at <= 0 || at > all.len() {
        Seq::empty()
    } else {
        all[at - 1]
    };
    let page = page_behind(all, cursor, limit);
    if limit == 0 || at < 0 || at + page.len() > all.len() || page.len() == 0 || cursor_after(
        page,
        limit,
    ).len() == 0 {
        page
    } else {
        page + listing_from(all, at + page.len(), limit)
    }
}

/// Following the cursors shows every workspace of the catalog once, in order.
pub proof fn lemma_list_shows_all(all: Seq<Seq<char>>, at: int, limit: u32)
    requires
        in_text_order(all),
        forall|i: int| 0 <= i < all.len() ==> (#[trigger] all[i]).len() > 0,
        0 <= at <= all.len(),
        limit > 0,
    ensures
        listing_from(all, at, limit) == all.skip(at),
    decreases all.len() - at,
{
    let cursor = if at <= 0 {
        Seq::empty()
    } else {
        all[at - 1]
    };
    if at > 0 {
        lemma_behind(all, at - 1);
    }
    let rest = behind(all, cursor);
    assert(rest =~= all.skip(at));
    let page = page_behind(all, cursor, limit);
    if rest.len() >= limit {
        assert(page =~= rest.take(limit as int));
        assert(page.last() == all[at + limit - 1]);
        lemma_list_shows_all(all, at + limit, limit);
        assert(page + all.skip(at + limit) =~= all.skip(at));
    }
}

/// How many workspaces a walk through the catalog asks for at once.
pub const CATALOG_PAGE: u32 = 256;

/// A walk through the whole catalog: page by page, each behind the last row of the one before,
/// until a page is empty.
#[derive(Debug)]
pub struct CatalogWalk {
    /// The row that the next page is behind; none at the beginning.
    pub cursor: Option<String>,
    pub rows: Vec<WorkspaceCatalogRecord>,
    pub done: bool,
}

impl CatalogWalk {
    pub fn new() -> (r: CatalogWalk)
        ensures
            r.cursor is None,
            r.rows@.len() == 0,
            !r.done,
    {
        CatalogWalk { cursor: None, rows: Vec::new(), done: false }
    }

    /// Takes in the page that was asked for.
    pub fn take_page(&mut self, page: Vec<WorkspaceCatalogRecord>)
        requires
            !old(self).done,
        ensures
            final(self).rows@ == old(self).rows@ + page@,
            final(self).done == (page@.len() == 0),
            opt_string(final(self).cursor) == if page@.len() == 0 {
                opt_string(old(self).cursor)
            } else {
                Some(page@.last().workspace_id@)
            },
    {
        let mut page = page;
        if page.len() == 0 {
            self.done = true;
            proof {
                assert(self.rows@ + page@ =~= self.rows@);
            }
            return;
        }
        self.cursor = Some(page[page.len() - 1].workspace_id.clone());
        self.rows.append(&mut page);
    }
}

/// The ids that a walk meets behind the first `at` of them.
pub open spec fn walk_from(all: Seq<Seq<char>>, at: int, limit: u32) -> Seq<Seq<char>>
    decreases all.len() - at,
{
    let cursor = if at <= 0 || at > all.len() {
        Seq::empty()
    } else {
        all[at - 1]
    };
    let page = page_behind(all, cursor, limit);
    if limit == 0 || at < 0 || at + page.len() > all.len() || page.len() == 0 {
        page
    } else {
        page + walk_from(all, at + page.len(), limit)
    }
}

/// A walk meets every workspace of the catalog once, in order.
pub proof fn lemma_walk_meets_all(all: Seq<Seq<char>>, at: int, limit: u32)
    requires
        in_text_order(all),
        forall|i: int| 0 <= i < all.len() ==> (#[trigger] all[i]).len() > 0,
        0 <= at <= all.len(),
        limit > 0,
    ensures
        walk_from(all, at, limit) == all.skip(at),
    decreases all.len() - at,
{
    let cursor = if at <= 0 {
        Seq::empty()
    } else {
        all[at - 1]
    };
    if at > 0 {
        lemma_behind(all, at - 1);
    }
    let rest = behind(all, cursor);
    assert(rest =~= all.skip(at));
    let page = page_behind(all, cursor, limit);
    if rest.len() > 0 {
        let n = page.len() as int;
        lemma_walk_meets_all(all, at + n, limit);
        assert(page =~= rest.take(n));
        assert(page + all.skip(at + n) =~= all.skip(at));
    }
}

// ---------------------------------------------------------------------------
// Work in the background
// ---------------------------------------------------------------------------

/// What the background work counts.
#[derive(Debug, Clone, Copy, PartialEq, Eq, Structural)]
pub struct MonitorCounters {
    pub retention_runs: u64,
    pub retention_deleted: u64,
    pub retention_last_deleted: u64,
    pub snapshot_runs: u64,
}

impl MonitorCounters {
    pub fn new() -> (r: MonitorCounters)
        ensures
            r == (MonitorCounters {
                retention_runs: 0,
                retention_deleted: 0,
                retention_last_deleted: 0,
                snapshot_runs: 0,
            }),
    {
        MonitorCounters {
            retention_runs: 0,
            retention_deleted: 0,
            retention_last_deleted: 0,
            snapshot_runs: 0,
        }
    }

    /// Events were swept; `deleted` is `None` where that failed. A run counts either way.
    pub fn note_retention(&mut self, deleted: Option<u64>)
        ensures
            *final(self) == (match deleted {
                Some(n) => MonitorCounters {
                    retention_runs: wrapped_sum(old(self).retention_runs, 1),
                    retention_deleted: wrapped_sum(old(self).retention_deleted, n),
                    retention_last_deleted: n,
                    ..*old(self)
                },
                None => MonitorCounters {
                    retention_runs: wrapped_sum(old(self).retention_runs, 1),
                    ..*old(self)
                },
            }),
    {
        self.retention_runs = self.retention_runs.wrapping_add(1);
        if let Some(n) = deleted {
            self.retention_deleted = self.retention_deleted.wrapping_add(n);
            self.retention_last_deleted = n;
        }
    }

    pub fn note_snapshot(&mut self)
        ensures
            *final(self) == (MonitorCounters {
                snapshot_runs: wrapped_sum(old(self).snapshot_runs, 1),
                ..*old(self)
            }),
    {
        self.snapshot_runs = self.snapshot_runs.wrapping_add(1);
    }
}

/// The answer to a ping.
pub fn ping() -> (r: &'static str)
    ensures
        r@ == "pong"@,
{
    "pong"
}

/// A store that is open is used, any other is opened from its file, and one without a file is only
/// opened where it may come to be.
pub proof fn lemma_which_store_is_used(
    root: Seq<char>,
    workspace_id: Seq<char>,
    open: Seq<Seq<char>>,
    create_if_missing: bool,
    file_exists: bool,
)
    ensures
        ({
            let w = trim(workspace_id);
            let r = store_source_of(root, workspace_id, open, create_if_missing, file_exists);
            &&& w.len() == 0 ==> r == Err::<StoreSourceView, ErrorView>(
                ErrorView::InvalidPath("workspace_id cannot be empty"@),
            )
            &&& w.len() > 0 && open.contains(w) ==> r == Ok::<StoreSourceView, ErrorView>(
                StoreSourceView::Open(w),
            )
            &&& w.len() > 0 && !open.contains(w) ==> (r is Ok <==> create_if_missing || file_exists)
            &&& w.len() > 0 && r is Err ==> r == Err::<StoreSourceView, ErrorView>(
                ErrorView::WorkspaceNotFound(w),
            )
            &&& r is Ok && r->Ok_0 is File ==> r->Ok_0->workspace == w && r->Ok_0->db_path
                == joined_file_path(joined_file_path(root, w), "index.db"@)
        }),
{
}

/// A directory is a workspace where a database lies in it and its name is not blank; nothing else
/// is listed but what is open.
pub proof fn lemma_what_is_listed(entries: Seq<RootEntry>, open: Seq<Seq<char>>, e: RootEntry)
    ensures
        entries.contains(e) && e.is_dir && e.has_index && !is_blank(e.name@) ==> is_listed(
            entries,
            open,
            e.name@,
        ),
        open.contains(e.name@) ==> is_listed(entries, open, e.name@),
        !open.contains(e.name@) && (forall|i: int|
            0 <= i < entries.len() && (#[trigger] entries[i]).name@ == e.name@ ==> !entries[i].is_dir
                || !entries[i].has_index || is_blank(entries[i].name@)) ==> !is_listed(
            entries,
            open,
            e.name@,
        ),
{
    if entries.contains(e) {
        let i = choose|i: int| 0 <= i < entries.len() && entries[i] == e;
        assert(is_workspace(entries[i]) == (e.is_dir && e.has_index && !is_blank(e.name@)));
    }
}

/// What has to be given is taken without the blanks round it.
pub proof fn lemma_what_has_to_be_given(value: Seq<char>, message: Seq<char>)
    ensures
        trim(value).len() > 0 ==> given_text(value, message) == Ok::<Seq<char>, StatusView>(
            trim(value),
        ),
        trim(value).len() == 0 ==> given_text(value, message) is Err && given_text(
            value,
            message,
        )->Err_0.code == Code::InvalidArgument,
{
}

/// A page holds a hundred where no number is asked for, and never more than a thousand.
pub proof fn lemma_page_sizes(limit: u32)
    ensures
        limit == 0 ==> list_limit_of(limit) == 100,
        1 <= limit <= 1000 ==> list_limit_of(limit) == limit,
        limit > 1000 ==> list_limit_of(limit) == 1000,
{
}

/// Only a full page may have another behind it, which begins behind its last row.
pub proof fn lemma_cursor_is_last_row(ids: Seq<Seq<char>>, limit: u32)
    ensures
        ids.len() > 0 && ids.len() == limit ==> cursor_after(ids, limit) == ids[ids.len() - 1],
        ids.len() == 0 || ids.len() != limit ==> cursor_after(ids, limit).len() == 0,
{
}

/// Behind a cursor are exactly the ids that come after it, in their order.
pub proof fn lemma_behind_comes_after(all: Seq<Seq<char>>, cursor: Seq<char>)
    requires
        in_text_order(all),
        cursor.len() > 0,
    ensures
        behind(all, cursor).len() <= all.len(),
        behind(all, cursor) == all.skip(all.len() - behind(all, cursor).len()),
        forall|i: int|
            0 <= i < all.len() ==> (i >= all.len() - behind(all, cursor).len() <==> text_less(
                cursor,
                #[trigger] all[i],
            )),
    decreases all.len(),
{
    if all.len() > 0 && !text_less(cursor, all[0]) {
        let rest = all.drop_first();
        assert forall|i: int, j: int| 0 <= i < j < rest.len() implies text_less(
            #[trigger] rest[i],
            #[trigger] rest[j],
        ) by {
            assert(rest[i] == all[i + 1] && rest[j] == all[j + 1]);
        }
        lemma_behind_comes_after(rest, cursor);
        let n = behind(rest, cursor).len() as int;
        assert(all.skip(all.len() - n) =~= rest.skip(rest.len() - n));
        assert forall|i: int| 0 <= i < all.len() implies (i >= all.len() - n <==> text_less(
            cursor,
            #[trigger] all[i],
        )) by {
            if i > 0 {
                assert(rest[i - 1] == all[i]);
            }
        }
    } else {
        assert(all.skip(0) =~= all);
        assert forall|i: int| 0 <= i < all.len() implies text_less(cursor, #[trigger] all[i]) by {
            if i > 0 {
                lemma_text_transitive(cursor, all[0], all[i]);
            }
        }
    }
}

/// A page of workspaces has the size that was asked for, within bounds, and a blank cursor is none.
pub proof fn lemma_pages_of_workspaces(limit: u32, r: u32, cursor: &str, c: Option<String>)
    requires
        call_ensures(list_limit, (limit,), r),
        call_ensures(list_cursor, (cursor,), c),
    ensures
        limit == 0 ==> r == 100,
        1 <= limit <= 1000 ==> r == limit,
        limit > 1000 ==> r == 1000,
        c is None <==> trim(cursor@).len() == 0,
        c is Some ==> c->0@ == trim(cursor@),
{
}

} // verus!

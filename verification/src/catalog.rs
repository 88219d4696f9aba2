//! The catalog of workspaces: its settings, and how it is brought in line with the index.
use crate::lists::reversed;
use crate::settings::{joined_file_path, file_path_under, EnvValue, EnvView};
use crate::status::{status_of, Code, Status};
use crate::text::{ascii_lowercase, join2, lowercase_text, same_text, trim, trim_text};
use crate::text_order::{comes_before, lemma_text_order, lemma_text_transitive, text_less};
use vstd::prelude::*;

verus! {

#[derive(Debug, Clone, PartialEq, Eq)]
pub struct WorkspaceCatalogRecord {
    pub workspace_id: String,
    pub name: String,
    pub root_node_id: String,
    pub created_at_unix_nano: i64,
}

#[derive(Debug, Clone, Copy, PartialEq, Eq, Structural)]
pub enum CatalogBackendKind {
    /// A database file of its own.
    Sqlite,
    Postgres,
}

#[derive(Debug, Clone, PartialEq, Eq)]
pub enum CatalogError {
    WorkspaceAlreadyExists { workspace_id: String },
    WorkspaceNotFound { workspace_id: String },
    Other(String),
}

#[verifier::ext_equal]
pub enum CatalogErrorView {
    WorkspaceAlreadyExists { workspace_id: Seq<char> },
    WorkspaceNotFound { workspace_id: Seq<char> },
    Other(Seq<char>),
}

impl View for CatalogError {
    type V = CatalogErrorView;

    open spec fn view(&self) -> CatalogErrorView {
        match *self {
            CatalogError::WorkspaceAlreadyExists { workspace_id } =>
                CatalogErrorView::WorkspaceAlreadyExists { workspace_id: workspace_id@ },
            CatalogError::WorkspaceNotFound { workspace_id } =>
                CatalogErrorView::WorkspaceNotFound { workspace_id: workspace_id@ },
            CatalogError::Other(m) => CatalogErrorView::Other(m@),
        }
    }
}

impl CatalogErrorView {
    /// The sentence that an error is reported with.
    pub open spec fn message(self) -> Seq<char> {
        match self {
            CatalogErrorView::WorkspaceAlreadyExists { workspace_id } =>
                "workspace already exists: "@ + workspace_id,
            CatalogErrorView::WorkspaceNotFound { workspace_id } => "workspace not found: "@
                + workspace_id,
            CatalogErrorView::Other(m) => m,
        }
    }

    pub open spec fn code(self) -> Code {
        match self {
            CatalogErrorView::WorkspaceAlreadyExists { .. } => Code::AlreadyExists,
            CatalogErrorView::WorkspaceNotFound { .. } => Code::NotFound,
            CatalogErrorView::Other(_) => Code::Internal,
        }
    }
}

impl CatalogError {
    pub fn message(&self) -> (r: String)
        ensures
            r@ == self@.message(),
    {
        match self {
            CatalogError::WorkspaceAlreadyExists { workspace_id } => join2(
                "workspace already exists: ",
                workspace_id,
            ),
            CatalogError::WorkspaceNotFound { workspace_id } => join2(
                "workspace not found: ",
                workspace_id,
            ),
            CatalogError::Other(m) => m.clone(),
        }
    }
}

/// The answer to a request that failed in the catalog.
pub fn catalog_status(err: &CatalogError) -> (r: Status)
    ensures
        r@ == status_of(err@.code(), err@.message()),
{
    let code = match err {
        CatalogError::WorkspaceAlreadyExists { .. } => Code::AlreadyExists,
        CatalogError::WorkspaceNotFound { .. } => Code::NotFound,
        CatalogError::Other(_) => Code::Internal,
    };
    Status { code, message: err.message() }
}

/// A workspace is registered once: `inserted` tells how many rows were added.
pub fn check_registered(inserted: u64, workspace_id: &str) -> (r: Result<(), CatalogError>)
    ensures
        match r {
            Ok(_) => inserted != 0,
            Err(e) => inserted == 0 && e@ == (CatalogErrorView::WorkspaceAlreadyExists {
                workspace_id: workspace_id@,
            }),
        },
{
    if inserted == 0 {
        Err(CatalogError::WorkspaceAlreadyExists { workspace_id: workspace_id.to_owned() })
    } else {
        Ok(())
    }
}

/// Only a workspace that is there is deleted: `deleted` tells how many rows went.
pub fn check_deleted(deleted: u64, workspace_id: &str) -> (r: Result<(), CatalogError>)
    ensures
        match r {
            Ok(_) => deleted != 0,
            Err(e) => deleted == 0 && e@ == (CatalogErrorView::WorkspaceNotFound {
                workspace_id: workspace_id@,
            }),
        },
{
    if deleted == 0 {
        Err(CatalogError::WorkspaceNotFound { workspace_id: workspace_id.to_owned() })
    } else {
        Ok(())
    }
}

// ---------------------------------------------------------------------------
// Settings
// ---------------------------------------------------------------------------

#[derive(Debug, Clone, PartialEq, Eq)]
pub struct CatalogConfig {
    pub backend: CatalogBackendKind,
    /// The database file; it is given for the backend that has one.
    pub sqlite_db_path: Option<String>,
    pub postgres_url: Option<String>,
}

#[verifier::ext_equal]
pub struct CatalogConfigView {
    pub backend: CatalogBackendKind,
    pub sqlite_db_path: Option<Seq<char>>,
    pub postgres_url: Option<Seq<char>>,
}

impl View for CatalogConfig {
    type V = CatalogConfigView;

    open spec fn view(&self) -> CatalogConfigView {
        CatalogConfigView {
            backend: self.backend,
            sqlite_db_path: crate::model::opt_string(self.sqlite_db_path),
            postgres_url: crate::model::opt_string(self.postgres_url),
        }
    }
}

pub open spec fn backend_setting(v: EnvView) -> Result<CatalogBackendKind, Seq<char>> {
    match v {
        EnvView::Unset => Ok(CatalogBackendKind::Sqlite),
        EnvView::NotUnicode => Err("SCRYD_CATALOG_BACKEND must be valid unicode"@),
        EnvView::Text(raw) => {
            let name = ascii_lowercase(trim(raw));
            if name == "sqlite"@ {
                Ok(CatalogBackendKind::Sqlite)
            } else if name == "postgres"@ || name == "postgresql"@ {
                Ok(CatalogBackendKind::Postgres)
            } else {
                Err("invalid SCRYD_CATALOG_BACKEND: "@ + raw)
            }
        },
    }
}

/// A setting, trimmed; a blank one is none.
pub open spec fn optional_setting(v: EnvView, not_unicode: Seq<char>) -> Result<
    Option<Seq<char>>,
    Seq<char>,
> {
    match v {
        EnvView::Unset => Ok(None),
        EnvView::NotUnicode => Err(not_unicode),
        EnvView::Text(raw) => if trim(raw).len() == 0 {
            Ok(None)
        } else {
            Ok(Some(trim(raw)))
        },
    }
}

pub open spec fn catalog_config_of(
    backend: EnvView,
    db_path: EnvView,
    postgres_url: EnvView,
    index_root: Seq<char>,
) -> Result<CatalogConfigView, Seq<char>> {
    match backend_setting(backend) {
        Err(m) => Err(m),
        Ok(kind) => match optional_setting(
            db_path,
            "SCRYD_CATALOG_DB_PATH must be valid unicode"@,
        ) {
            Err(m) => Err(m),
            Ok(path) => match optional_setting(
                postgres_url,
                "SCRYD_CATALOG_POSTGRES_URL must be valid unicode"@,
            ) {
                Err(m) => Err(m),
                Ok(url) => if kind == CatalogBackendKind::Postgres && url is None {
                    Err(
                        "SCRYD_CATALOG_POSTGRES_URL is required when SCRYD_CATALOG_BACKEND=postgres"@,
                    )
                } else {
                    Ok(
                        CatalogConfigView {
                            backend: kind,
                            sqlite_db_path: if kind == CatalogBackendKind::Sqlite && path is None {
                                Some(joined_file_path(index_root, "_catalog.db"@))
                            } else {
                                path
                            },
                            postgres_url: url,
                        },
                    )
                },
            },
        },
    }
}

fn read_backend(v: &EnvValue) -> (r: Result<CatalogBackendKind, String>)
    ensures
        match r {
            Ok(k) => backend_setting(v@) == Ok::<CatalogBackendKind, Seq<char>>(k),
            Err(m) => backend_setting(v@) == Err::<CatalogBackendKind, Seq<char>>(m@),
        },
{
    match v {
        EnvValue::Unset => Ok(CatalogBackendKind::Sqlite),
        EnvValue::NotUnicode => Err("SCRYD_CATALOG_BACKEND must be valid unicode".to_owned()),
        EnvValue::Text(raw) => {
            let name = lowercase_text(trim_text(raw.as_str()).as_str());
            let s = name.as_str();
            if same_text(s, "sqlite") {
                Ok(CatalogBackendKind::Sqlite)
            } else if same_text(s, "postgres") || same_text(s, "postgresql") {
                Ok(CatalogBackendKind::Postgres)
            } else {
                Err(join2("invalid SCRYD_CATALOG_BACKEND: ", raw.as_str()))
            }
        },
    }
}

fn read_optional(v: &EnvValue, not_unicode: &str) -> (r: Result<Option<String>, String>)
    ensures
        match r {
            Ok(s) => optional_setting(v@, not_unicode@) == Ok::<Option<Seq<char>>, Seq<char>>(
                crate::model::opt_string(s),
            ),
            Err(m) => optional_setting(v@, not_unicode@) == Err::<Option<Seq<char>>, Seq<char>>(m@),
        },
{
    match v {
        EnvValue::Unset => Ok(None),
        EnvValue::NotUnicode => Err(not_unicode.to_owned()),
        EnvValue::Text(raw) => {
            let trimmed = trim_text(raw.as_str());
            if trimmed.as_str().is_empty() {
                Ok(None)
            } else {
                Ok(Some(trimmed))
            }
        },
    }
}

impl CatalogConfig {
    /// The settings of the catalog. Its database file is by default next to the indexes.
    pub fn from_settings(
        backend: &EnvValue,
        db_path: &EnvValue,
        postgres_url: &EnvValue,
        index_root: &str,
    ) -> (r: Result<CatalogConfig, String>)
        ensures
            match r {
                Ok(c) => catalog_config_of(backend@, db_path@, postgres_url@, index_root@) == Ok::<
                    CatalogConfigView,
                    Seq<char>,
                >(c@),
                Err(m) => catalog_config_of(backend@, db_path@, postgres_url@, index_root@)
                    == Err::<CatalogConfigView, Seq<char>>(m@),
            },
            r matches Ok(c) ==> match c.backend {
                CatalogBackendKind::Sqlite => c.sqlite_db_path is Some,
                CatalogBackendKind::Postgres => c.postgres_url is Some,
            },
    {
        let kind = match read_backend(backend) {
            Ok(k) => k,
            Err(m) => {
                return Err(m);
            },
        };
        let path = match read_optional(db_path, "SCRYD_CATALOG_DB_PATH must be valid unicode") {
            Ok(p) => p,
            Err(m) => {
                return Err(m);
            },
        };
        let url = match read_optional(
            postgres_url,
            "SCRYD_CATALOG_POSTGRES_URL must be valid unicode",
        ) {
            Ok(u) => u,
            Err(m) => {
                return Err(m);
            },
        };
        match kind {
            CatalogBackendKind::Postgres => {
                if url.is_none() {
                    return Err(
                        "SCRYD_CATALOG_POSTGRES_URL is required when SCRYD_CATALOG_BACKEND=postgres".to_owned(),
                    );
                }
                Ok(CatalogConfig { backend: kind, sqlite_db_path: path, postgres_url: url })
            },
            CatalogBackendKind::Sqlite => {
                let file = match path {
                    Some(p) => p,
                    None => file_path_under(index_root, "_catalog.db"),
                };
                Ok(CatalogConfig { backend: kind, sqlite_db_path: Some(file), postgres_url: url })
            },
        }
    }
}

// ---------------------------------------------------------------------------
// Workspaces by id
// ---------------------------------------------------------------------------

/// A workspace: its id, its name and its root directory.
#[derive(Debug, Clone, PartialEq, Eq)]
pub struct WorkspaceSummary {
    pub workspace_id: String,
    pub name: String,
    pub root_node_id: String,
}

#[verifier::ext_equal]
pub struct SummaryView {
    pub workspace_id: Seq<char>,
    pub name: Seq<char>,
    pub root_node_id: Seq<char>,
}

impl View for WorkspaceSummary {
    type V = SummaryView;

    open spec fn view(&self) -> SummaryView {
        SummaryView {
            workspace_id: self.workspace_id@,
            name: self.name@,
            root_node_id: self.root_node_id@,
        }
    }
}

pub open spec fn summaries(v: Seq<WorkspaceSummary>) -> Seq<SummaryView> {
    v.map_values(|s: WorkspaceSummary| s@)
}

/// The workspace with the id: the last of the rows that have it.
pub open spec fn found(rows: Seq<SummaryView>, id: Seq<char>) -> Option<SummaryView>
    decreases rows.len(),
{
    if rows.len() == 0 {
        None
    } else if rows.last().workspace_id == id {
        Some(rows.last())
    } else {
        found(rows.drop_last(), id)
    }
}

/// The rows are in the order of their ids, and no id comes twice.
pub open spec fn by_id(rows: Seq<SummaryView>) -> bool {
    forall|i: int, j: int|
        0 <= i < j < rows.len() ==> text_less(
            (#[trigger] rows[i]).workspace_id,
            (#[trigger] rows[j]).workspace_id,
        )
}

proof fn lemma_found(rows: Seq<SummaryView>, id: Seq<char>)
    ensures
        match found(rows, id) {
            Some(x) => exists|k: int| 0 <= k < rows.len() && #[trigger] rows[k] == x
                && x.workspace_id == id,
            None => forall|k: int| 0 <= k < rows.len() ==> (#[trigger] rows[k]).workspace_id != id,
        },
    decreases rows.len(),
{
    if rows.len() > 0 {
        if rows.last().workspace_id == id {
            assert(rows[rows.len() - 1] == rows.last());
        } else {
            let t = rows.drop_last();
            lemma_found(t, id);
            match found(t, id) {
                Some(x) => {
                    let k = choose|k: int| 0 <= k < t.len() && #[trigger] t[k] == x
                        && x.workspace_id == id;
                    assert(rows[k] == x);
                },
                None => {
                    assert forall|k: int| 0 <= k < rows.len() implies (
                    #[trigger] rows[k]).workspace_id != id by {
                        if k < t.len() {
                            assert(rows[k] == t[k]);
                        }
                    }
                },
            }
        }
    }
}

proof fn lemma_found_in_order(rows: Seq<SummaryView>, k: int)
    requires
        by_id(rows),
        0 <= k < rows.len(),
    ensures
        found(rows, rows[k].workspace_id) == Some(rows[k]),
{
    let id = rows[k].workspace_id;
    lemma_found(rows, id);
    if found(rows, id) is Some {
        let x = found(rows, id)->0;
        let j = choose|j: int| 0 <= j < rows.len() && #[trigger] rows[j] == x && x.workspace_id
            == id;
        lemma_text_order(rows[j].workspace_id, rows[k].workspace_id);
        if j < k {
            assert(text_less(rows[j].workspace_id, rows[k].workspace_id));
        }
        if k < j {
            assert(text_less(rows[k].workspace_id, rows[j].workspace_id));
        }
    }
}

/// Adds a row to rows in order, in place of one with the same id.
fn upsert(v: &mut Vec<WorkspaceSummary>, row: WorkspaceSummary)
    requires
        by_id(summaries(old(v)@)),
    ensures
        by_id(summaries(final(v)@)),
        forall|id: Seq<char>| #[trigger]
            found(summaries(final(v)@), id) == if id == row@.workspace_id {
                Some(row@)
            } else {
                found(summaries(old(v)@), id)
            },
{
    let ghost before = summaries(v@);
    let ghost new = row@;
    let mut i: usize = 0;
    while i < v.len() && comes_before(v[i].workspace_id.as_str(), row.workspace_id.as_str())
        invariant
            i <= v@.len(),
            before == summaries(v@),
            new == row@,
            forall|k: int|
                0 <= k < i ==> text_less((#[trigger] before[k]).workspace_id, new.workspace_id),
        decreases v@.len() - i,
    {
        proof {
            assert(before[i as int] == v@[i as int]@);
        }
        i += 1;
    }
    proof {
        if i < v@.len() {
            assert(before[i as int] == v@[i as int]@);
            lemma_text_order(before[i as int].workspace_id, new.workspace_id);
        }
    }
    if i < v.len() && same_text(v[i].workspace_id.as_str(), row.workspace_id.as_str()) {
        v.set(i, row);
        proof {
            let after = summaries(v@);
            assert(after =~= before.update(i as int, new));
            lemma_put_in_order(before, after, i as int, new, true);
        }
    } else {
        v.insert(i, row);
        proof {
            let after = summaries(v@);
            assert(after =~= before.insert(i as int, new));
            lemma_put_in_order(before, after, i as int, new, false);
        }
    }
}

proof fn lemma_put_in_order(
    before: Seq<SummaryView>,
    after: Seq<SummaryView>,
    i: int,
    new: SummaryView,
    replaced: bool,
)
    requires
        by_id(before),
        0 <= i <= before.len(),
        forall|k: int| 0 <= k < i ==> text_less((#[trigger] before[k]).workspace_id, new.workspace_id),
        replaced ==> i < before.len() && before[i].workspace_id == new.workspace_id && after
            == before.update(i, new),
        !replaced ==> after == before.insert(i, new) && (i < before.len() ==> text_less(
            new.workspace_id,
            before[i].workspace_id,
        )),
    ensures
        by_id(after),
        forall|id: Seq<char>| #[trigger]
            found(after, id) == if id == new.workspace_id {
                Some(new)
            } else {
                found(before, id)
            },
{
    assert forall|a: int, b: int| 0 <= a < b < after.len() implies text_less(
        (#[trigger] after[a]).workspace_id,
        (#[trigger] after[b]).workspace_id,
    ) by {
        if replaced {
            assert(after[a].workspace_id == before[a].workspace_id);
            assert(after[b].workspace_id == before[b].workspace_id);
        } else {
            if a < i && b > i {
                assert(after[a] == before[a] && after[b] == before[b - 1]);
            } else if a < i && b < i {
                assert(after[a] == before[a] && after[b] == before[b]);
            } else if a == i {
                assert(after[b] == before[b - 1]);
                if b - 1 > i {
                    lemma_text_transitive(
                        new.workspace_id,
                        before[i].workspace_id,
                        before[b - 1].workspace_id,
                    );
                }
            } else if a > i {
                assert(after[a] == before[a - 1] && after[b] == before[b - 1]);
            } else {
                assert(after[a] == before[a] && after[b] == new);
            }
        }
    }
    assert forall|id: Seq<char>| #[trigger] found(after, id) == (if id == new.workspace_id {
        Some(new)
    } else {
        found(before, id)
    }) by {
        if id == new.workspace_id {
            assert(after[i] == new);
            lemma_found_in_order(after, i);
        } else {
            lemma_found(before, id);
            lemma_found(after, id);
            match found(before, id) {
                Some(x) => {
                    let k = choose|k: int| 0 <= k < before.len() && #[trigger] before[k] == x
                        && x.workspace_id == id;
                    let m = if replaced || k < i { k } else { k + 1 };
                    assert(after[m] == before[k]);
                    lemma_found_in_order(after, m);
                },
                None => {
                    if found(after, id) is Some {
                        let x = found(after, id)->0;
                        let m = choose|m: int| 0 <= m < after.len() && #[trigger] after[m] == x
                            && x.workspace_id == id;
                        if m != i {
                            let k = if replaced || m < i { m } else { m - 1 };
                            assert(after[m] == before[k]);
                        }
                    }
                },
            }
        }
    }
}

/// The rows in the order of their ids; of rows with the same id, the last one.
fn sort_by_id(rows: Vec<WorkspaceSummary>) -> (r: Vec<WorkspaceSummary>)
    ensures
        by_id(summaries(r@)),
        forall|id: Seq<char>| #[trigger] found(summaries(r@), id) == found(summaries(rows@), id),
{
    let ghost all = summaries(rows@);
    let ghost whole = rows@;
    let mut backwards = reversed(rows);
    let mut out: Vec<WorkspaceSummary> = Vec::new();
    proof {
        assert(whole.skip(0) =~= whole);
        assert(backwards@ =~= whole.skip(0).reverse());
        assert(summaries(out@) =~= Seq::empty());
        assert(all.take(0) =~= Seq::empty());
        assert(forall|id: Seq<char>| #[trigger]
            found(summaries(out@), id) == found(all.take(0), id));
    }
    while backwards.len() > 0
        invariant
            all == summaries(whole),
            backwards@.len() <= whole.len(),
            backwards@ == whole.skip(whole.len() - backwards@.len()).reverse(),
            by_id(summaries(out@)),
            forall|id: Seq<char>| #[trigger]
                found(summaries(out@), id) == found(all.take(all.len() - backwards@.len()), id),
        decreases backwards@.len(),
    {
        let ghost m = whole.len() - backwards@.len();
        let ghost old_out = summaries(out@);
        let x = backwards.pop().unwrap();
        proof {
            assert(whole.skip(m).reverse().last() == whole[m]);
            assert(x == whole[m]);
            assert(backwards@ =~= whole.skip(m + 1).reverse());
            assert(all.take(m + 1).drop_last() =~= all.take(m));
            assert(all.take(m + 1).last() == x@);
        }
        upsert(&mut out, x);
        proof {
            assert forall|id: Seq<char>| #[trigger] found(summaries(out@), id) == found(
                all.take(m + 1),
                id,
            ) by {
                assert(found(old_out, id) == found(all.take(m), id));
            }
        }
    }
    proof {
        assert(all.take(all.len() as int) =~= all);
    }
    out
}

/// Those of `rows` that are not in `others`.
fn without(rows: &Vec<WorkspaceSummary>, others: &Vec<WorkspaceSummary>) -> (r: Vec<
    WorkspaceSummary,
>)
    requires
        by_id(summaries(rows@)),
    ensures
        by_id(summaries(r@)),
        forall|id: Seq<char>| #[trigger]
            found(summaries(r@), id) == if found(summaries(others@), id) is None {
                found(summaries(rows@), id)
            } else {
                None
            },
{
    let ghost all = summaries(rows@);
    let mut out: Vec<WorkspaceSummary> = Vec::new();
    let mut i: usize = 0;
    proof {
        assert(summaries(out@) =~= Seq::empty());
        assert(all.take(0) =~= Seq::empty());
    }
    while i < rows.len()
        invariant
            all == summaries(rows@),
            by_id(all),
            i <= rows@.len(),
            by_id(summaries(out@)),
            forall|k: int|
                #![trigger summaries(out@)[k]]
                0 <= k < out@.len() ==> exists|j: int|
                    0 <= j < i && summaries(out@)[k] == #[trigger] all[j],
            forall|id: Seq<char>| #[trigger]
                found(summaries(out@), id) == if found(summaries(others@), id) is None {
                    found(all.take(i as int), id)
                } else {
                    None
                },
        decreases rows@.len() - i,
    {
        let row = &rows[i];
        let ghost before = summaries(out@);
        let ghost rv = row@;
        let known = holds_workspace(others, row.workspace_id.as_str());
        proof {
            assert(all[i as int] == rv);
            assert(all.take(i + 1).drop_last() =~= all.take(i as int));
            assert(all.take(i + 1).last() == rv);
        }
        if !known {
            let copy = WorkspaceSummary {
                workspace_id: row.workspace_id.clone(),
                name: row.name.clone(),
                root_node_id: row.root_node_id.clone(),
            };
            out.push(copy);
            proof {
                let after = summaries(out@);
                assert(after =~= before.push(rv));
                assert forall|a: int, b: int| 0 <= a < b < after.len() implies text_less(
                    (#[trigger] after[a]).workspace_id,
                    (#[trigger] after[b]).workspace_id,
                ) by {
                    if b == before.len() {
                        assert(after[a] == before[a]);
                        let j = choose|j: int| 0 <= j < i && before[a] == #[trigger] all[j];
                        assert(text_less(all[j].workspace_id, all[i as int].workspace_id));
                    } else {
                        assert(after[a] == before[a] && after[b] == before[b]);
                    }
                }
                assert forall|k: int| #![trigger after[k]] 0 <= k < after.len() implies exists|
                    j: int,
                |
                    0 <= j < i + 1 && after[k] == #[trigger] all[j] by {
                    if k < before.len() {
                        assert(after[k] == before[k]);
                        let j = choose|j: int| 0 <= j < i && before[k] == #[trigger] all[j];
                        assert(after[k] == all[j]);
                    } else {
                        assert(after[k] == all[i as int]);
                    }
                }
                assert forall|id: Seq<char>| #[trigger] found(after, id) == (if found(
                    summaries(others@),
                    id,
                ) is None {
                    found(all.take(i + 1), id)
                } else {
                    None
                }) by {
                    assert(after.drop_last() =~= before);
                    assert(found(before, id) == if found(summaries(others@), id) is None {
                        found(all.take(i as int), id)
                    } else {
                        None
                    });
                }
            }
        } else {
            proof {
                assert forall|k: int|
                    #![trigger before[k]]
                    0 <= k < before.len() implies exists|j: int|
                    0 <= j < i + 1 && before[k] == #[trigger] all[j] by {
                    let j = choose|j: int| 0 <= j < i && before[k] == #[trigger] all[j];
                    assert(before[k] == all[j]);
                }
                assert forall|id: Seq<char>| #[trigger] found(before, id) == (if found(
                    summaries(others@),
                    id,
                ) is None {
                    found(all.take(i + 1), id)
                } else {
                    None
                }) by {
                    assert(found(before, id) == if found(summaries(others@), id) is None {
                        found(all.take(i as int), id)
                    } else {
                        None
                    });
                }
            }
        }
        i += 1;
    }
    proof {
        assert(all.take(all.len() as int) =~= all);
    }
    out
}

fn holds_workspace(rows: &Vec<WorkspaceSummary>, id: &str) -> (r: bool)
    ensures
        r == found(summaries(rows@), id@) is Some,
{
    let ghost all = summaries(rows@);
    let mut n = rows.len();
    proof {
        assert(all.take(n as int) =~= all);
    }
    while n > 0
        invariant
            all == summaries(rows@),
            n <= rows@.len(),
            found(all, id@) == found(all.take(n as int), id@),
        decreases n,
    {
        proof {
            assert(all.take(n as int).last() == rows@[n - 1]@);
            assert(all.take(n as int).drop_last() =~= all.take(n - 1));
        }
        if same_text(rows[n - 1].workspace_id.as_str(), id) {
            return true;
        }
        n -= 1;
    }
    false
}

// ---------------------------------------------------------------------------
// Reconciling
// ---------------------------------------------------------------------------

/// What is wrong with a catalog: the workspaces that it lacks and those that it should not have,
/// each in the order of their ids. The two counts tell how many workspaces were looked at.
#[derive(Debug)]
pub struct ReconcilePlan {
    pub checked_index_workspaces: u64,
    pub checked_catalog_workspaces: u64,
    pub missing: Vec<WorkspaceSummary>,
    pub stale: Vec<WorkspaceSummary>,
}

/// `v` holds exactly the workspaces of `rows` that `others` lacks, in the order of their ids.
pub open spec fn is_difference(
    v: Seq<SummaryView>,
    rows: Seq<SummaryView>,
    others: Seq<SummaryView>,
) -> bool {
    &&& by_id(v)
    &&& forall|id: Seq<char>| #[trigger]
        found(v, id) == if found(others, id) is None {
            found(rows, id)
        } else {
            None
        }
}

/// `n` is the number of different ids in the rows.
pub open spec fn is_id_count(rows: Seq<SummaryView>, n: int) -> bool {
    exists|v: Seq<SummaryView>|
        #![trigger by_id(v)]
        v.len() == n && by_id(v) && forall|id: Seq<char>| #[trigger] found(v, id) == found(rows, id)
}

/// Compares the workspaces of the index with those of the catalog.
pub fn reconcile_plan(index_rows: Vec<WorkspaceSummary>, catalog_rows: Vec<WorkspaceSummary>) -> (r:
    ReconcilePlan)
    ensures
        is_difference(summaries(r.missing@), summaries(index_rows@), summaries(catalog_rows@)),
        is_difference(summaries(r.stale@), summaries(catalog_rows@), summaries(index_rows@)),
        is_id_count(summaries(index_rows@), r.checked_index_workspaces as int),
        is_id_count(summaries(catalog_rows@), r.checked_catalog_workspaces as int),
{
    let index = sort_by_id(index_rows);
    let catalog = sort_by_id(catalog_rows);
    let missing = without(&index, &catalog);
    let stale = without(&catalog, &index);
    proof {
        assert(by_id(summaries(index@)));
        assert(by_id(summaries(catalog@)));
        assert forall|id: Seq<char>| #[trigger] found(summaries(missing@), id) == (if found(
            summaries(catalog_rows@),
            id,
        ) is None {
            found(summaries(index_rows@), id)
        } else {
            None
        }) by {
            assert(found(summaries(catalog@), id) == found(summaries(catalog_rows@), id));
            assert(found(summaries(index@), id) == found(summaries(index_rows@), id));
        }
        assert forall|id: Seq<char>| #[trigger] found(summaries(stale@), id) == (if found(
            summaries(index_rows@),
            id,
        ) is None {
            found(summaries(catalog_rows@), id)
        } else {
            None
        }) by {
            assert(found(summaries(catalog@), id) == found(summaries(catalog_rows@), id));
            assert(found(summaries(index@), id) == found(summaries(index_rows@), id));
        }
    }
    ReconcilePlan {
        checked_index_workspaces: index.len() as u64,
        checked_catalog_workspaces: catalog.len() as u64,
        missing,
        stale,
    }
}

/// `repaired` is the catalog `catalog` with the missing workspaces added and the stale ones gone.
pub open spec fn is_repaired(
    repaired: Seq<SummaryView>,
    catalog: Seq<SummaryView>,
    missing: Seq<SummaryView>,
    stale: Seq<SummaryView>,
) -> bool {
    forall|id: Seq<char>| #[trigger]
        found(repaired, id) == if found(missing, id) is Some {
            found(missing, id)
        } else if found(stale, id) is Some {
            None
        } else {
            found(catalog, id)
        }
}

/// Once a plan is carried out, the catalog lacks nothing and has nothing too much.
pub proof fn lemma_repair_is_complete(
    index: Seq<SummaryView>,
    catalog: Seq<SummaryView>,
    missing: Seq<SummaryView>,
    stale: Seq<SummaryView>,
    repaired: Seq<SummaryView>,
    missing_after: Seq<SummaryView>,
    stale_after: Seq<SummaryView>,
)
    requires
        is_difference(missing, index, catalog),
        is_difference(stale, catalog, index),
        is_repaired(repaired, catalog, missing, stale),
        is_difference(missing_after, index, repaired),
        is_difference(stale_after, repaired, index),
    ensures
        missing_after.len() == 0,
        stale_after.len() == 0,
{
    if missing_after.len() > 0 {
        let id = missing_after[0].workspace_id;
        lemma_found_in_order(missing_after, 0);
        lemma_in_line(index, catalog, missing, stale, repaired, id);
    }
    if stale_after.len() > 0 {
        let id = stale_after[0].workspace_id;
        lemma_found_in_order(stale_after, 0);
        lemma_in_line(index, catalog, missing, stale, repaired, id);
    }
}

proof fn lemma_in_line(
    index: Seq<SummaryView>,
    catalog: Seq<SummaryView>,
    missing: Seq<SummaryView>,
    stale: Seq<SummaryView>,
    repaired: Seq<SummaryView>,
    id: Seq<char>,
)
    requires
        is_difference(missing, index, catalog),
        is_difference(stale, catalog, index),
        is_repaired(repaired, catalog, missing, stale),
    ensures
        found(repaired, id) is Some <==> found(index, id) is Some,
{
    assert(found(missing, id) == if found(catalog, id) is None {
        found(index, id)
    } else {
        None
    });
    assert(found(stale, id) == if found(index, id) is None {
        found(catalog, id)
    } else {
        None
    });
    assert(found(repaired, id) == if found(missing, id) is Some {
        found(missing, id)
    } else if found(stale, id) is Some {
        None
    } else {
        found(catalog, id)
    });
}

#[derive(Debug, Clone, Copy, PartialEq, Eq, Structural)]
pub struct CatalogReconcileReport {
    pub checked_index_workspaces: u64,
    pub missing_in_catalog: u64,
    pub checked_catalog_workspaces: u64,
    pub stale_in_catalog: u64,
    pub repaired_added: u64,
    pub repaired_deleted: u64,
}

impl ReconcilePlan {
    /// The report on a plan; `applied` tells whether it was carried out.
    pub fn report(&self, applied: bool) -> (r: CatalogReconcileReport)
        ensures
            r.checked_index_workspaces == self.checked_index_workspaces,
            r.checked_catalog_workspaces == self.checked_catalog_workspaces,
            r.missing_in_catalog == self.missing@.len(),
            r.stale_in_catalog == self.stale@.len(),
            r.repaired_added == (if applied {
                self.missing@.len()
            } else {
                0
            }),
            r.repaired_deleted == (if applied {
                self.stale@.len()
            } else {
                0
            }),
    {
        let missing = self.missing.len() as u64;
        let stale = self.stale.len() as u64;
        CatalogReconcileReport {
            checked_index_workspaces: self.checked_index_workspaces,
            missing_in_catalog: missing,
            checked_catalog_workspaces: self.checked_catalog_workspaces,
            stale_in_catalog: stale,
            repaired_added: if applied {
                missing
            } else {
                0
            },
            repaired_deleted: if applied {
                stale
            } else {
                0
            },
        }
    }
}

/// What went wrong in the catalog is answered under its own code and told by its own sentence.
pub proof fn lemma_catalog_faults(workspace_id: Seq<char>, m: Seq<char>)
    ensures
        (CatalogErrorView::WorkspaceAlreadyExists { workspace_id }).code() == Code::AlreadyExists,
        (CatalogErrorView::WorkspaceNotFound { workspace_id }).code() == Code::NotFound,
        CatalogErrorView::Other(m).code() == Code::Internal,
        (CatalogErrorView::WorkspaceAlreadyExists { workspace_id }).message()
            == "workspace already exists: "@ + workspace_id,
        (CatalogErrorView::WorkspaceNotFound { workspace_id }).message() == "workspace not found: "@
            + workspace_id,
        CatalogErrorView::Other(m).message() == m,
{
}

/// The catalog is kept in a file where nothing else is asked for, and elsewhere only under a name
/// that stands for it.
pub proof fn lemma_names_of_backends(raw: Seq<char>)
    ensures
        backend_setting(EnvView::Unset) == Ok::<CatalogBackendKind, Seq<char>>(
            CatalogBackendKind::Sqlite,
        ),
        backend_setting(EnvView::NotUnicode) is Err,
        ({
            let v = ascii_lowercase(trim(raw));
            let r = backend_setting(EnvView::Text(raw));
            &&& r == Ok::<CatalogBackendKind, Seq<char>>(CatalogBackendKind::Sqlite) <==> v
                == "sqlite"@
            &&& r == Ok::<CatalogBackendKind, Seq<char>>(CatalogBackendKind::Postgres) <==> v
                == "postgres"@ || v == "postgresql"@
            &&& r is Err ==> r == Err::<CatalogBackendKind, Seq<char>>(
                "invalid SCRYD_CATALOG_BACKEND: "@ + raw,
            )
        }),
{
    reveal_strlit("sqlite");
    reveal_strlit("postgres");
    reveal_strlit("postgresql");
    assert("sqlite"@.len() == 6 && "postgres"@.len() == 8 && "postgresql"@.len() == 10);
}

/// A setting counts as given where there is something in it but blanks.
pub proof fn lemma_given_settings(raw: Seq<char>, not_unicode: Seq<char>)
    ensures
        optional_setting(EnvView::Unset, not_unicode) == Ok::<Option<Seq<char>>, Seq<char>>(None),
        optional_setting(EnvView::NotUnicode, not_unicode) == Err::<Option<Seq<char>>, Seq<char>>(
            not_unicode,
        ),
        trim(raw).len() == 0 ==> optional_setting(EnvView::Text(raw), not_unicode) == Ok::<
            Option<Seq<char>>,
            Seq<char>,
        >(None),
        trim(raw).len() > 0 ==> optional_setting(EnvView::Text(raw), not_unicode) == Ok::<
            Option<Seq<char>>,
            Seq<char>,
        >(Some(trim(raw))),
{
}

/// A catalog is where its settings say, and a file that is not named lies under the root; a
/// database that is asked for has to be named.
pub proof fn lemma_where_the_catalog_is(
    backend: EnvView,
    path: Seq<char>,
    url: Seq<char>,
    index_root: Seq<char>,
)
    requires
        trim(path).len() > 0,
        trim(url).len() > 0,
        backend_setting(backend) is Ok,
    ensures
        ({
            let kind = backend_setting(backend)->Ok_0;
            let both = catalog_config_of(
                backend,
                EnvView::Text(path),
                EnvView::Text(url),
                index_root,
            );
            let neither = catalog_config_of(backend, EnvView::Unset, EnvView::Unset, index_root);
            &&& both == Ok::<CatalogConfigView, Seq<char>>(
                CatalogConfigView {
                    backend: kind,
                    sqlite_db_path: Some(trim(path)),
                    postgres_url: Some(trim(url)),
                },
            )
            &&& kind == CatalogBackendKind::Sqlite ==> neither == Ok::<
                CatalogConfigView,
                Seq<char>,
            >(
                CatalogConfigView {
                    backend: CatalogBackendKind::Sqlite,
                    sqlite_db_path: Some(joined_file_path(index_root, "_catalog.db"@)),
                    postgres_url: None,
                },
            )
            &&& kind == CatalogBackendKind::Postgres ==> neither == Err::<
                CatalogConfigView,
                Seq<char>,
            >("SCRYD_CATALOG_POSTGRES_URL is required when SCRYD_CATALOG_BACKEND=postgres"@)
        }),
{
}

/// What is found under an id is the last row that has it, and nothing is where no row has it.
pub proof fn lemma_found_is_last_row(rows: Seq<SummaryView>, id: Seq<char>)
    ensures
        found(rows, id) is None ==> forall|k: int|
            0 <= k < rows.len() ==> (#[trigger] rows[k]).workspace_id != id,
        found(rows, id) is Some ==> exists|k: int|
            {
                &&& 0 <= k < rows.len()
                &&& #[trigger] rows[k] == found(rows, id)->0
                &&& rows[k].workspace_id == id
                &&& forall|j: int| k < j < rows.len() ==> (#[trigger] rows[j]).workspace_id != id
            },
    decreases rows.len(),
{
    if rows.len() > 0 && rows.last().workspace_id != id {
        let front = rows.drop_last();
        lemma_found_is_last_row(front, id);
        if found(front, id) is Some {
            let k = choose|k: int|
                {
                    &&& 0 <= k < front.len()
                    &&& #[trigger] front[k] == found(front, id)->0
                    &&& front[k].workspace_id == id
                    &&& forall|j: int|
                        k < j < front.len() ==> (#[trigger] front[j]).workspace_id != id
                };
            assert(rows[k] == front[k]);
            assert forall|j: int| k < j < rows.len() implies (#[trigger] rows[j]).workspace_id
                != id by {
                if j < front.len() {
                    assert(front[j] == rows[j]);
                }
            }
        } else {
            assert forall|k: int| 0 <= k < rows.len() implies (#[trigger] rows[k]).workspace_id
                != id by {
                if k < front.len() {
                    assert(front[k] == rows[k]);
                }
            }
        }
    } else if rows.len() > 0 {
        assert(rows[rows.len() - 1].workspace_id == id);
    }
}

/// A row of a difference is one of the rows, and no row of the others has its id.
pub proof fn lemma_difference_is_of_rows(
    v: Seq<SummaryView>,
    rows: Seq<SummaryView>,
    others: Seq<SummaryView>,
    id: Seq<char>,
)
    requires
        is_difference(v, rows, others),
    ensures
        (exists|k: int| 0 <= k < v.len() && (#[trigger] v[k]).workspace_id == id) <==> (exists|k: int|
            0 <= k < rows.len() && (#[trigger] rows[k]).workspace_id == id) && (forall|k: int|
            0 <= k < others.len() ==> (#[trigger] others[k]).workspace_id != id),
{
    lemma_found_is_last_row(v, id);
    lemma_found_is_last_row(rows, id);
    lemma_found_is_last_row(others, id);
    assert(found(v, id) == if found(others, id) is None {
        found(rows, id)
    } else {
        None
    });
}

/// A row that was not inserted was there before, and one that was not deleted was not.
pub proof fn lemma_rows_that_changed(
    rows: u64,
    workspace_id: &str,
    inserted: Result<(), CatalogError>,
    deleted: Result<(), CatalogError>,
)
    requires
        call_ensures(check_registered, (rows, workspace_id), inserted),
        call_ensures(check_deleted, (rows, workspace_id), deleted),
    ensures
        inserted is Ok <==> rows > 0,
        deleted is Ok <==> rows > 0,
        inserted is Err ==> inserted->Err_0@ == (CatalogErrorView::WorkspaceAlreadyExists {
            workspace_id: workspace_id@,
        }),
        deleted is Err ==> deleted->Err_0@ == (CatalogErrorView::WorkspaceNotFound {
            workspace_id: workspace_id@,
        }),
{
}

proof fn lemma_ids_are_distinct(v: Seq<SummaryView>)
    requires
        by_id(v),
    ensures
        v.map_values(|r: SummaryView| r.workspace_id).no_duplicates(),
{
    let ids = v.map_values(|r: SummaryView| r.workspace_id);
    assert forall|i: int, j: int| 0 <= i < ids.len() && 0 <= j < ids.len() && i != j implies ids[i]
        != ids[j] by {
        if i < j {
            assert(text_less(v[i].workspace_id, v[j].workspace_id));
            lemma_text_order(v[i].workspace_id, v[j].workspace_id);
        } else {
            assert(text_less(v[j].workspace_id, v[i].workspace_id));
            lemma_text_order(v[j].workspace_id, v[i].workspace_id);
        }
    }
}

/// What is counted is how many different ids there are.
pub proof fn lemma_ids_are_counted_once(rows: Seq<SummaryView>, n: int)
    requires
        is_id_count(rows, n),
    ensures
        rows.map_values(|r: SummaryView| r.workspace_id).to_set().len() == n,
{
    let id_of = |r: SummaryView| r.workspace_id;
    let v = choose|v: Seq<SummaryView>|
        #![trigger by_id(v)]
        v.len() == n && by_id(v) && forall|id: Seq<char>| #[trigger] found(v, id) == found(rows, id);
    lemma_ids_are_distinct(v);
    v.map_values(id_of).unique_seq_to_set();
    assert forall|id: Seq<char>| v.map_values(id_of).to_set().contains(id) == rows.map_values(
        id_of,
    ).to_set().contains(id) by {
        lemma_found_is_last_row(v, id);
        lemma_found_is_last_row(rows, id);
        assert(found(v, id) == found(rows, id));
        if found(v, id) is Some {
            let k = choose|k: int| 0 <= k < v.len() && (#[trigger] v[k]).workspace_id == id;
            assert(v.map_values(id_of)[k] == id);
            let m = choose|m: int| 0 <= m < rows.len() && (#[trigger] rows[m]).workspace_id == id;
            assert(rows.map_values(id_of)[m] == id);
        } else {
            assert forall|k: int| 0 <= k < v.len() implies v.map_values(id_of)[k] != id by {
                assert(v[k].workspace_id != id);
            }
            assert forall|k: int| 0 <= k < rows.len() implies rows.map_values(id_of)[k] != id by {
                assert(rows[k].workspace_id != id);
            }
        }
    }
    assert(v.map_values(id_of).to_set() =~= rows.map_values(id_of).to_set());
}

/// What is missing is in the index and not in the catalog, and what is stale is the other way round.
pub proof fn lemma_what_has_to_be_repaired(
    index_rows: Vec<WorkspaceSummary>,
    catalog_rows: Vec<WorkspaceSummary>,
    r: ReconcilePlan,
    id: Seq<char>,
)
    requires
        call_ensures(reconcile_plan, (index_rows, catalog_rows), r),
    ensures
        ({
            let holds = |v: Seq<WorkspaceSummary>|
                exists|k: int| 0 <= k < v.len() && (#[trigger] summaries(v)[k]).workspace_id == id;
            &&& holds(r.missing@) <==> holds(index_rows@) && !holds(catalog_rows@)
            &&& holds(r.stale@) <==> holds(catalog_rows@) && !holds(index_rows@)
        }),
{
    let index = summaries(index_rows@);
    let catalog = summaries(catalog_rows@);
    lemma_difference_is_of_rows(summaries(r.missing@), index, catalog, id);
    lemma_difference_is_of_rows(summaries(r.stale@), catalog, index, id);
}

} // verus!

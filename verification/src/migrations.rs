//! Which changes of the schema a database still needs.
use crate::text::holds_text;
use vstd::prelude::*;

verus! {

/// The migration `version` was not applied yet.
pub open spec fn is_pending(applied: Seq<i64>, version: int) -> bool {
    !exists|i: int| 0 <= i < applied.len() && #[trigger] applied[i] == version
}

/// The versions up to `count` that are not among `applied`, in order.
pub open spec fn pending_of(applied: Seq<i64>, count: int) -> Seq<int>
    decreases count,
{
    if count <= 0 {
        Seq::empty()
    } else if is_pending(applied, count) {
        pending_of(applied, count - 1).push(count)
    } else {
        pending_of(applied, count - 1)
    }
}

fn holds_version(applied: &Vec<i64>, version: i64) -> (r: bool)
    ensures
        r == !is_pending(applied@, version as int),
{
    let mut i: usize = 0;
    while i < applied.len()
        invariant
            i <= applied@.len(),
            forall|j: int| 0 <= j < i ==> #[trigger] applied@[j] != version,
        decreases applied@.len() - i,
    {
        if applied[i] == version {
            return true;
        }
        i += 1;
    }
    false
}

/// The migrations that are to be run, of `count` that there are; they are numbered from 1.
pub fn pending_migrations(applied: &Vec<i64>, count: u32) -> (r: Vec<i64>)
    ensures
        r@.map_values(|v: i64| v as int) == pending_of(applied@, count as int),
{
    let mut out: Vec<i64> = Vec::new();
    let mut n: u32 = 0;
    proof {
        assert(out@.map_values(|v: i64| v as int) =~= Seq::<int>::empty());
    }
    while n < count
        invariant
            n <= count,
            out@.map_values(|v: i64| v as int) == pending_of(applied@, n as int),
        decreases count - n,
    {
        let version: i64 = n as i64 + 1;
        let ghost before = out@;
        if !holds_version(applied, version) {
            out.push(version);
            proof {
                assert(out@.map_values(|v: i64| v as int) =~= before.map_values(
                    |v: i64| v as int,
                ).push(version as int));
            }
        }
        n += 1;
    }
    out
}

proof fn lemma_none_pending(applied: Seq<i64>, count: int)
    requires
        forall|v: int| 1 <= v <= count ==> !#[trigger] is_pending(applied, v),
    ensures
        pending_of(applied, count) == Seq::<int>::empty(),
    decreases count,
{
    if count > 0 {
        lemma_none_pending(applied, count - 1);
    }
}

proof fn lemma_pending_members(applied: Seq<i64>, count: int, v: int)
    requires
        1 <= v <= count,
        is_pending(applied, v),
    ensures
        pending_of(applied, count).contains(v),
    decreases count,
{
    let p = pending_of(applied, count);
    if v == count {
        assert(p[p.len() - 1] == v);
    } else {
        lemma_pending_members(applied, count - 1, v);
        let q = pending_of(applied, count - 1);
        let i = choose|i: int| 0 <= i < q.len() && q[i] == v;
        assert(p[i] == v);
    }
}

/// Once the pending migrations were applied, none is pending: opening a database again changes
/// nothing.
pub proof fn lemma_migrations_are_idempotent(applied: Seq<i64>, count: int, after: Seq<i64>)
    requires
        forall|i: int| 0 <= i < applied.len() ==> after.contains(#[trigger] applied[i]),
        forall|v: int| #[trigger]
            pending_of(applied, count).contains(v) ==> exists|i: int|
                0 <= i < after.len() && #[trigger] after[i] == v,
    ensures
        pending_of(after, count) == Seq::<int>::empty(),
{
    assert forall|v: int| 1 <= v <= count implies !#[trigger] is_pending(after, v) by {
        if is_pending(applied, v) {
            lemma_pending_members(applied, count, v);
        } else {
            let i = choose|i: int| 0 <= i < applied.len() && #[trigger] applied[i] == v;
            assert(after.contains(applied[i]));
        }
    }
    lemma_none_pending(after, count);
}

/// A column that databases of earlier versions may lack.
#[derive(Debug, Clone, Copy, PartialEq, Eq, Structural)]
pub enum AddedColumn {
    ContentHash,
    Mime,
    IsHeadline,
    IndexingPolicy,
}

impl AddedColumn {
    pub open spec fn table(self) -> Seq<char> {
        match self {
            AddedColumn::IsHeadline => "chunks"@,
            _ => "nodes"@,
        }
    }

    pub open spec fn column(self) -> Seq<char> {
        match self {
            AddedColumn::ContentHash => "content_hash"@,
            AddedColumn::Mime => "mime"@,
            AddedColumn::IsHeadline => "is_headline"@,
            AddedColumn::IndexingPolicy => "indexing_policy"@,
        }
    }

    pub fn table_name(&self) -> (r: &'static str)
        ensures
            r@ == self.table(),
    {
        match self {
            AddedColumn::IsHeadline => "chunks",
            _ => "nodes",
        }
    }

    pub fn column_name(&self) -> (r: &'static str)
        ensures
            r@ == self.column(),
    {
        match self {
            AddedColumn::ContentHash => "content_hash",
            AddedColumn::Mime => "mime",
            AddedColumn::IsHeadline => "is_headline",
            AddedColumn::IndexingPolicy => "indexing_policy",
        }
    }

    /// The statement that adds the column.
    pub fn statement(&self) -> (r: &'static str)
        ensures
            r@ == match *self {
                AddedColumn::ContentHash =>
                    "ALTER TABLE nodes ADD COLUMN content_hash TEXT NOT NULL DEFAULT ''"@,
                AddedColumn::Mime => "ALTER TABLE nodes ADD COLUMN mime TEXT NOT NULL DEFAULT ''"@,
                AddedColumn::IsHeadline =>
                    "ALTER TABLE chunks ADD COLUMN is_headline INTEGER NOT NULL DEFAULT 0"@,
                AddedColumn::IndexingPolicy =>
                    "ALTER TABLE nodes ADD COLUMN indexing_policy TEXT NOT NULL DEFAULT 'full'"@,
            },
    {
        match self {
            AddedColumn::ContentHash =>
                "ALTER TABLE nodes ADD COLUMN content_hash TEXT NOT NULL DEFAULT ''",
            AddedColumn::Mime => "ALTER TABLE nodes ADD COLUMN mime TEXT NOT NULL DEFAULT ''",
            AddedColumn::IsHeadline =>
                "ALTER TABLE chunks ADD COLUMN is_headline INTEGER NOT NULL DEFAULT 0",
            AddedColumn::IndexingPolicy =>
                "ALTER TABLE nodes ADD COLUMN indexing_policy TEXT NOT NULL DEFAULT 'full'",
        }
    }
}

pub open spec fn lacking(
    nodes: Seq<Seq<char>>,
    chunks: Seq<Seq<char>>,
    column: AddedColumn,
) -> Seq<AddedColumn> {
    let there = if column == AddedColumn::IsHeadline {
        chunks
    } else {
        nodes
    };
    if there.contains(column.column()) {
        Seq::empty()
    } else {
        seq![column]
    }
}

/// The columns to be added, given those that the two tables have.
pub fn missing_columns(nodes: &Vec<String>, chunks: &Vec<String>) -> (r: Vec<AddedColumn>)
    ensures
        r@ == ({
            let n = crate::text::texts(nodes@);
            let c = crate::text::texts(chunks@);
            lacking(n, c, AddedColumn::ContentHash) + lacking(n, c, AddedColumn::Mime) + lacking(
                n,
                c,
                AddedColumn::IsHeadline,
            ) + lacking(n, c, AddedColumn::IndexingPolicy)
        }),
{
    let mut out: Vec<AddedColumn> = Vec::new();
    if !holds_text(nodes, "content_hash") {
        out.push(AddedColumn::ContentHash);
    }
    if !holds_text(nodes, "mime") {
        out.push(AddedColumn::Mime);
    }
    if !holds_text(chunks, "is_headline") {
        out.push(AddedColumn::IsHeadline);
    }
    if !holds_text(nodes, "indexing_policy") {
        out.push(AddedColumn::IndexingPolicy);
    }
    out
}

/// How many connections only read: as many as the machine runs threads at once, within bounds.
pub fn reader_pool_size(available_parallelism: Option<usize>) -> (r: usize)
    ensures
        4 <= r <= 32,
        r == match available_parallelism {
            None => 4,
            Some(n) => if n < 4 {
                4
            } else if n > 32 {
                32
            } else {
                n as int
            },
        },
{
    match available_parallelism {
        None => 4,
        Some(n) => if n < 4 {
            4
        } else if n > 32 {
            32
        } else {
            n
        },
    }
}

/// A migration is pending exactly where it is one of those there are and was not applied.
pub proof fn lemma_what_is_pending(applied: Seq<i64>, count: int, v: int)
    ensures
        pending_of(applied, count).contains(v) <==> 1 <= v <= count && !exists|i: int|
            0 <= i < applied.len() && #[trigger] applied[i] == v,
    decreases count,
{
    if count > 0 {
        lemma_what_is_pending(applied, count - 1, v);
        let before = pending_of(applied, count - 1);
        if is_pending(applied, count) {
            let p = before.push(count);
            assert(p[before.len() as int] == count);
            if before.contains(v) {
                let k = choose|k: int| 0 <= k < before.len() && before[k] == v;
                assert(p[k] == v);
            }
            if p.contains(v) && v != count {
                let k = choose|k: int| 0 <= k < p.len() && p[k] == v;
                assert(before[k] == v);
            }
        }
    }
}

/// Migrations are applied in their order.
pub proof fn lemma_pending_in_order(applied: Seq<i64>, count: int)
    ensures
        forall|i: int, j: int|
            0 <= i < j < pending_of(applied, count).len() ==> #[trigger] pending_of(
                applied,
                count,
            )[i] < #[trigger] pending_of(applied, count)[j],
        forall|i: int|
            0 <= i < pending_of(applied, count).len() ==> #[trigger] pending_of(applied, count)[i]
                <= count,
    decreases count,
{
    if count > 0 {
        lemma_pending_in_order(applied, count - 1);
        let before = pending_of(applied, count - 1);
        let all = pending_of(applied, count);
        assert(all == before || all == before.push(count));
        assert forall|i: int| 0 <= i < all.len() implies #[trigger] all[i] <= count by {
            if i < before.len() {
                assert(all[i] == before[i]);
            }
        }
        assert forall|i: int, j: int| 0 <= i < j < all.len() implies #[trigger] all[i]
            < #[trigger] all[j] by {
            assert(all[i] == before[i]);
            if j < before.len() {
                assert(all[j] == before[j]);
            }
        }
    }
}

/// A column is added to its own table, and only where the table lacks it.
pub proof fn lemma_columns_that_are_lacking(
    nodes: Seq<Seq<char>>,
    chunks: Seq<Seq<char>>,
    column: AddedColumn,
)
    ensures
        lacking(nodes, chunks, AddedColumn::ContentHash).len() == 0 <==> nodes.contains(
            "content_hash"@,
        ),
        lacking(nodes, chunks, AddedColumn::Mime).len() == 0 <==> nodes.contains("mime"@),
        lacking(nodes, chunks, AddedColumn::IsHeadline).len() == 0 <==> chunks.contains(
            "is_headline"@,
        ),
        lacking(nodes, chunks, AddedColumn::IndexingPolicy).len() == 0 <==> nodes.contains(
            "indexing_policy"@,
        ),
        lacking(nodes, chunks, column).len() > 0 ==> lacking(nodes, chunks, column) == seq![column],
        column.table() == if column == AddedColumn::IsHeadline {
            "chunks"@
        } else {
            "nodes"@
        },
{
}

/// There are as many readers as processors, but four at least and thirty-two at most.
pub proof fn lemma_readers(n: usize, known: usize, unknown: usize)
    requires
        call_ensures(reader_pool_size, (Some(n),), known),
        call_ensures(reader_pool_size, (None,), unknown),
    ensures
        4 <= n <= 32 ==> known == n,
        n < 4 ==> known == 4,
        n > 32 ==> known == 32,
        unknown == 4,
{
}

} // verus!

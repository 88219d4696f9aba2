//! Search: what is asked of the index for each kind of search, and how two rankings become one.
use crate::index_error::IndexError;
use crate::jobs::stored_lines;
use crate::model::{FileChunkRecord, SearchMode};
use crate::nodes::RowError;
use crate::status::{status_of, Code, Status};
use crate::text::{blank, is_blank};
use vstd::prelude::*;

verus! {

/// How many rows are asked for and shown: at least one.
pub fn shown_limit(limit: u32) -> (r: u32)
    ensures
        r == if limit == 0 {
            1
        } else {
            limit as int
        },
{
    if limit == 0 {
        1
    } else {
        limit
    }
}

/// How far each of the two rankings of a hybrid search goes: three times as far as what is shown.
pub fn ranking_limit(limit: u32) -> (r: u32)
    ensures
        r == if 3 * limit > u32::MAX {
            u32::MAX as int
        } else {
            3 * limit
        },
{
    if limit > u32::MAX / 3 {
        u32::MAX
    } else {
        limit * 3
    }
}

/// How many hits are reported.
pub open spec fn hit_count(n: int) -> Result<u32, crate::index_error::ErrorView> {
    if 0 <= n <= u32::MAX {
        Ok(n as u32)
    } else {
        Err(crate::index_error::ErrorView::NumericConversion)
    }
}

/// The number of matches of a full-text search, as it was counted.
pub fn count_fts_hits(count: i64) -> (r: Result<u32, IndexError>)
    ensures
        match r {
            Ok(n) => hit_count(count as int) == Ok::<u32, crate::index_error::ErrorView>(n),
            Err(e) => hit_count(count as int) == Err::<u32, crate::index_error::ErrorView>(e@),
        },
{
    if 0 <= count && count <= u32::MAX as i64 {
        Ok(count as u32)
    } else {
        Err(IndexError::NumericConversion)
    }
}

/// What a search needs besides the index.
#[derive(Debug, Clone, Copy, PartialEq, Eq, Structural)]
pub struct SearchNeeds {
    /// The query is matched as text.
    pub text: bool,
    /// The query has to be embedded, which is charged for once the search has succeeded.
    pub embedding: bool,
}

pub open spec fn needs_of(mode: SearchMode) -> SearchNeeds {
    SearchNeeds { text: mode != SearchMode::Vector, embedding: mode != SearchMode::Fts }
}

/// A search has to ask for something.
pub fn check_search(query: &str, mode: SearchMode) -> (r: Result<SearchNeeds, Status>)
    ensures
        match r {
            Ok(n) => {
                &&& !is_blank(query@)
                &&& n == needs_of(mode)
                &&& mode == SearchMode::Fts ==> n.text && !n.embedding
                &&& mode == SearchMode::Vector ==> !n.text && n.embedding
                &&& mode == SearchMode::Hybrid ==> n.text && n.embedding
            },
            Err(e) => is_blank(query@) && e@ == status_of(
                Code::InvalidArgument,
                "query cannot be empty"@,
            ),
        },
{
    if blank(query) {
        return Err(Status::new(Code::InvalidArgument, "query cannot be empty"));
    }
    match mode {
        SearchMode::Fts => Ok(SearchNeeds { text: true, embedding: false }),
        SearchMode::Vector => Ok(SearchNeeds { text: false, embedding: true }),
        SearchMode::Hybrid => Ok(SearchNeeds { text: true, embedding: true }),
    }
}

/// What a search found, without its score.
#[derive(Debug, Clone, PartialEq, Eq)]
pub struct FoundChunk {
    pub node_id: String,
    pub path: String,
    pub start_line: u32,
    pub end_line: u32,
    pub snippet: String,
    pub context_path: String,
    pub headline_only: bool,
}

/// A row that a search reads.
#[derive(Debug)]
pub struct FoundRow {
    pub node_id: String,
    pub path: String,
    pub start_line: i64,
    pub end_line: i64,
    pub content: String,
    pub context_path: String,
    pub is_headline: i64,
}

/// The lines of a row are those of a text: not negative, and in 32 bits.
pub open spec fn line_fits(n: i64) -> bool {
    0 <= n <= u32::MAX
}

/// What a row says; `column` is that of its first line.
pub fn map_found_row(row: FoundRow, column: usize) -> (r: Result<FoundChunk, RowError>)
    requires
        column < usize::MAX,
    ensures
        match r {
            Ok(c) => {
                &&& line_fits(row.start_line) && line_fits(row.end_line)
                &&& c.node_id@ == row.node_id@
                &&& c.path@ == row.path@
                &&& c.start_line == row.start_line
                &&& c.end_line == row.end_line
                &&& c.snippet@ == row.content@
                &&& c.context_path@ == row.context_path@
                &&& c.headline_only == (row.is_headline != 0)
            },
            Err(RowError::OutOfRange { column: c, value }) => if !line_fits(row.start_line) {
                c == column && value == row.start_line
            } else {
                !line_fits(row.end_line) && c == column + 1 && value == row.end_line
            },
            Err(_) => false,
        },
{
    match stored_lines(row.start_line, row.end_line, column) {
        Ok((start_line, end_line)) => Ok(
            FoundChunk {
                node_id: row.node_id,
                path: row.path,
                start_line,
                end_line,
                snippet: row.content,
                context_path: row.context_path,
                headline_only: row.is_headline != 0,
            },
        ),
        Err(e) => Err(e),
    }
}

/// A chunk of a file, as its row has it in the columns `id`, `start_line` (1), `end_line` (2) and
/// `content`.
pub fn map_file_chunk_row(chunk_id: i64, start_line: i64, end_line: i64, content: String) -> (r:
    Result<FileChunkRecord, RowError>)
    ensures
        match r {
            Ok(c) => {
                &&& line_fits(start_line) && line_fits(end_line)
                &&& c.chunk_id == chunk_id
                &&& c.start_line == start_line
                &&& c.end_line == end_line
                &&& c.content@ == content@
            },
            Err(e) => e == if !line_fits(start_line) {
                RowError::OutOfRange { column: 1, value: start_line }
            } else {
                RowError::OutOfRange { column: 2, value: end_line }
            } && !(line_fits(start_line) && line_fits(end_line)),
        },
{
    match stored_lines(start_line, end_line, 1) {
        Ok((start_line, end_line)) => Ok(
            FileChunkRecord { chunk_id, start_line, end_line, content },
        ),
        Err(e) => Err(e),
    }
}

// ---------------------------------------------------------------------------
// Two rankings in one
// ---------------------------------------------------------------------------

/// A chunk that one of the rankings or both of them found.
#[derive(Debug, Clone, PartialEq, Eq)]
pub struct FusedChunk {
    pub chunk_id: i64,
    /// Where it was first found, counted through the first ranking and on through the second.
    pub first: usize,
    /// Its places in the rankings, from 1, in the order in which they were found.
    pub ranks: Vec<usize>,
}

/// The chunks of both rankings, one behind the other.
pub open spec fn found(fts: Seq<i64>, vectors: Seq<i64>) -> Seq<i64> {
    fts + vectors
}

/// The place, within its own ranking, of what was found at `i`.
pub open spec fn rank_at(fts_len: int, i: int) -> int {
    if i < fts_len {
        i + 1
    } else {
        i - fts_len + 1
    }
}

/// The places of a chunk among the first `n` that were found.
pub open spec fn ranks_of(ids: Seq<i64>, fts_len: int, id: i64, n: int) -> Seq<int>
    decreases n,
{
    if n <= 0 {
        Seq::empty()
    } else if ids[n - 1] == id {
        ranks_of(ids, fts_len, id, n - 1).push(rank_at(fts_len, n - 1))
    } else {
        ranks_of(ids, fts_len, id, n - 1)
    }
}

pub open spec fn first_at(ids: Seq<i64>, id: i64, i: int) -> bool {
    &&& 0 <= i < ids.len()
    &&& ids[i] == id
    &&& forall|j: int| 0 <= j < i ==> ids[j] != id
}

/// The chunk stands for what was found of its id.
pub open spec fn fused_right(c: FusedChunk, ids: Seq<i64>, fts_len: int, n: int) -> bool {
    &&& first_at(ids.take(n), c.chunk_id, c.first as int)
    &&& c.ranks@.map_values(|r: usize| r as int) == ranks_of(ids, fts_len, c.chunk_id, n)
}

pub open spec fn is_fusion(out: Seq<FusedChunk>, ids: Seq<i64>, fts_len: int, n: int) -> bool {
    &&& forall|k: int| 0 <= k < out.len() ==> #[trigger] fused_right(out[k], ids, fts_len, n)
    &&& forall|a: int, b: int|
        0 <= a < b < out.len() ==> (#[trigger] out[a]).first < (#[trigger] out[b]).first
    &&& forall|i: int|
        0 <= i < n ==> exists|k: int|
            0 <= k < out.len() && (#[trigger] out[k]).chunk_id == #[trigger] ids[i]
}

fn find_chunk(out: &Vec<FusedChunk>, id: i64) -> (r: Option<usize>)
    ensures
        match r {
            Some(k) => k < out@.len() && out@[k as int].chunk_id == id,
            None => forall|k: int| 0 <= k < out@.len() ==> (#[trigger] out@[k]).chunk_id != id,
        },
{
    let mut k: usize = 0;
    while k < out.len()
        invariant
            k <= out@.len(),
            forall|j: int| 0 <= j < k ==> (#[trigger] out@[j]).chunk_id != id,
        decreases out@.len() - k,
    {
        if out[k].chunk_id == id {
            return Some(k);
        }
        k += 1;
    }
    None
}

proof fn lemma_no_ranks(ids: Seq<i64>, fts_len: int, id: i64, n: int)
    requires
        0 <= n <= ids.len(),
        forall|j: int| 0 <= j < n ==> ids[j] != id,
    ensures
        ranks_of(ids, fts_len, id, n) == Seq::<int>::empty(),
    decreases n,
{
    if n > 0 {
        lemma_no_ranks(ids, fts_len, id, n - 1);
    }
}

fn fuse_one(out: &mut Vec<FusedChunk>, id: i64, rank: usize, at: usize, Ghost(ids): Ghost<Seq<i64>>, Ghost(fts_len): Ghost<int>)
    requires
        at < ids.len(),
        ids[at as int] == id,
        rank == rank_at(fts_len, at as int),
        is_fusion(old(out)@, ids, fts_len, at as int),
    ensures
        is_fusion(final(out)@, ids, fts_len, at + 1),
{
    let ghost before = out@;
    let ghost n = at as int;
    match find_chunk(out, id) {
        Some(k) => {
            let c = &mut out[k];
            c.ranks.push(rank);
            proof {
                let after = out@;
                assert forall|j: int| 0 <= j < after.len() implies #[trigger] fused_right(
                    after[j],
                    ids,
                    fts_len,
                    n + 1,
                ) by {
                    assert(fused_right(before[j], ids, fts_len, n));
                    let f = before[j].first as int;
                    assert(ids.take(n)[f] == ids.take(n + 1)[f]);
                    let t = ids.take(n + 1);
                    assert forall|i: int| 0 <= i < f implies #[trigger] t[i] != before[j].chunk_id by {
                        assert(ids.take(n)[i] == ids.take(n + 1)[i]);
                    }
                    if j == k {
                        assert(after[j].ranks@.map_values(|r: usize| r as int)
                            =~= before[j].ranks@.map_values(|r: usize| r as int).push(
                            rank as int,
                        ));
                    } else {
                        assert(after[j] == before[j]);
                        let a = if j < k { j } else { k as int };
                        let b = if j < k { k as int } else { j };
                        assert(fused_right(before[k as int], ids, fts_len, n));
                        assert(before[a].first < before[b].first);
                        if before[j].chunk_id == id {
                            let g = before[k as int].first as int;
                            assert(ids.take(n)[g] == id);
                            assert(ids.take(n)[f] == id);
                            assert(false);
                        }
                    }
                }
                assert forall|i: int| 0 <= i < n + 1 implies exists|j: int|
                    0 <= j < after.len() && (#[trigger] after[j]).chunk_id == #[trigger] ids[i] by {
                    if i < n {
                        let j = choose|j: int|
                            0 <= j < before.len() && (#[trigger] before[j]).chunk_id == ids[i];
                        assert(after[j].chunk_id == ids[i]);
                    } else {
                        assert(after[k as int].chunk_id == ids[i]);
                    }
                }
            }
        },
        None => {
            let mut ranks: Vec<usize> = Vec::new();
            ranks.push(rank);
            out.push(FusedChunk { chunk_id: id, first: at, ranks });
            proof {
                let after = out@;
                let m = before.len() as int;
                assert forall|i: int| 0 <= i < n implies ids[i] != id by {
                    let j = choose|j: int|
                        0 <= j < before.len() && (#[trigger] before[j]).chunk_id == ids[i];
                    assert(before[j].chunk_id != id);
                }
                lemma_no_ranks(ids, fts_len, id, n);
                assert forall|j: int| 0 <= j < after.len() implies #[trigger] fused_right(
                    after[j],
                    ids,
                    fts_len,
                    n + 1,
                ) by {
                    if j < m {
                        assert(after[j] == before[j]);
                        assert(fused_right(before[j], ids, fts_len, n));
                        let f = before[j].first as int;
                        assert(ids.take(n)[f] == ids.take(n + 1)[f]);
                        let t = ids.take(n + 1);
                    assert forall|i: int| 0 <= i < f implies #[trigger] t[i] != before[j].chunk_id by {
                            assert(ids.take(n)[i] == ids.take(n + 1)[i]);
                        }
                    } else {
                        assert(after[j].ranks@.map_values(|r: usize| r as int)
                            =~= Seq::<int>::empty().push(rank as int));
                    }
                }
                assert forall|a: int, b: int| 0 <= a < b < after.len() implies (
                #[trigger] after[a]).first < (#[trigger] after[b]).first by {
                    if b == m {
                        assert(fused_right(before[a], ids, fts_len, n));
                    }
                }
                assert forall|i: int| 0 <= i < n + 1 implies exists|j: int|
                    0 <= j < after.len() && (#[trigger] after[j]).chunk_id == #[trigger] ids[i] by {
                    if i < n {
                        let j = choose|j: int|
                            0 <= j < before.len() && (#[trigger] before[j]).chunk_id == ids[i];
                        assert(after[j].chunk_id == ids[i]);
                    } else {
                        assert(after[m].chunk_id == ids[i]);
                    }
                }
            }
        },
    }
}

/// Each chunk that either ranking found, once, in the order in which they were found, with all its
/// places.
pub fn fuse_rankings(fts: &Vec<i64>, vectors: &Vec<i64>) -> (r: Vec<FusedChunk>)
    requires
        fts@.len() + vectors@.len() <= usize::MAX,
    ensures
        is_fusion(
            r@,
            found(fts@, vectors@),
            fts@.len() as int,
            (fts@.len() + vectors@.len()) as int,
        ),
{
    let ghost ids = found(fts@, vectors@);
    let ghost fts_len = fts@.len() as int;
    let mut out: Vec<FusedChunk> = Vec::new();
    let mut i: usize = 0;
    while i < fts.len()
        invariant
            i <= fts@.len(),
            ids == found(fts@, vectors@),
            fts_len == fts@.len(),
            fts@.len() + vectors@.len() <= usize::MAX,
            is_fusion(out@, ids, fts_len, i as int),
        decreases fts@.len() - i,
    {
        fuse_one(&mut out, fts[i], i + 1, i, Ghost(ids), Ghost(fts_len));
        i += 1;
    }
    let mut j: usize = 0;
    while j < vectors.len()
        invariant
            j <= vectors@.len(),
            ids == found(fts@, vectors@),
            fts_len == fts@.len(),
            fts@.len() + vectors@.len() <= usize::MAX,
            is_fusion(out@, ids, fts_len, fts_len + j),
        decreases vectors@.len() - j,
    {
        fuse_one(&mut out, vectors[j], j + 1, fts.len() + j, Ghost(ids), Ghost(fts_len));
        j += 1;
    }
    out
}

/// No chunk is shown twice, and each that was found has a place in at least one ranking.
pub proof fn lemma_fusion_has_no_twins(out: Seq<FusedChunk>, fts: Seq<i64>, vectors: Seq<i64>)
    requires
        is_fusion(
            out,
            found(fts, vectors),
            fts.len() as int,
            (fts.len() + vectors.len()) as int,
        ),
    ensures
        forall|a: int, b: int|
            0 <= a < b < out.len() ==> (#[trigger] out[a]).chunk_id != (#[trigger] out[b]).chunk_id,
        forall|k: int| 0 <= k < out.len() ==> (#[trigger] out[k]).ranks@.len() > 0,
        out.len() <= fts.len() + vectors.len(),
{
    let ids = found(fts, vectors);
    let n = (fts.len() + vectors.len()) as int;
    assert(ids.take(n) =~= ids);
    assert forall|a: int, b: int| 0 <= a < b < out.len() implies (#[trigger] out[a]).chunk_id != (
    #[trigger] out[b]).chunk_id by {
        assert(fused_right(out[a], ids, fts.len() as int, n));
        assert(fused_right(out[b], ids, fts.len() as int, n));
        if out[a].chunk_id == out[b].chunk_id {
            assert(ids[out[a].first as int] == out[a].chunk_id);
        }
    }
    assert forall|k: int| 0 <= k < out.len() implies (#[trigger] out[k]).ranks@.len() > 0 by {
        assert(fused_right(out[k], ids, fts.len() as int, n));
        lemma_has_rank(ids, fts.len() as int, out[k].chunk_id, n, out[k].first as int);
        assert(out[k].ranks@.map_values(|r: usize| r as int).len() > 0);
    }
    lemma_increasing_bounded(out, ids, fts.len() as int, n, out.len() as int);
}

proof fn lemma_has_rank(ids: Seq<i64>, fts_len: int, id: i64, n: int, i: int)
    requires
        0 <= i < n <= ids.len(),
        ids[i] == id,
    ensures
        ranks_of(ids, fts_len, id, n).len() > 0,
    decreases n,
{
    if i < n - 1 {
        lemma_has_rank(ids, fts_len, id, n - 1, i);
    }
}

proof fn lemma_increasing_bounded(out: Seq<FusedChunk>, ids: Seq<i64>, fts_len: int, n: int, k: int)
    requires
        is_fusion(out, ids, fts_len, n),
        0 <= n <= ids.len(),
        0 <= k <= out.len(),
    ensures
        k <= n,
        k > 0 ==> out[k - 1].first >= k - 1,
    decreases k,
{
    if k > 0 {
        lemma_increasing_bounded(out, ids, fts_len, n, k - 1);
        assert(fused_right(out[k - 1], ids, fts_len, n));
        if k > 1 {
            assert(out[k - 2].first < out[k - 1].first);
        }
    }
}

/// The text of a query is matched in the modes for text and for both, and in no other; it is
/// embedded in the modes for vectors and for both, and in no other. No two modes need the same.
pub proof fn lemma_modes_need_different_things(a: SearchMode, b: SearchMode)
    ensures
        needs_of(SearchMode::Fts).text && !needs_of(SearchMode::Fts).embedding,
        !needs_of(SearchMode::Vector).text && needs_of(SearchMode::Vector).embedding,
        needs_of(SearchMode::Hybrid).text && needs_of(SearchMode::Hybrid).embedding,
        a != b ==> needs_of(a) != needs_of(b),
{
}

/// A count that fits is reported as it is, and any other is a fault.
pub proof fn lemma_counts_of_hits(n: int)
    ensures
        hit_count(n) is Ok <==> 0 <= n <= 0xffff_ffff,
        hit_count(n) is Ok ==> hit_count(n)->Ok_0 == n,
{
}

/// A chunk that one ranking has once is ranked there by its place, counted from one, whichever of
/// the two it is.
pub proof fn lemma_ranks_are_places(fts: Seq<i64>, vectors: Seq<i64>, id: i64, r: int)
    ensures
        ranks_of(found(fts, vectors), fts.len() as int, id, (fts.len() + vectors.len()) as int).contains(
            r,
        ) <==> (1 <= r <= fts.len() && fts[r - 1] == id) || (1 <= r <= vectors.len() && vectors[r - 1]
            == id),
{
    lemma_ranks_up_to(fts, vectors, id, (fts.len() + vectors.len()) as int, r);
}

proof fn lemma_ranks_up_to(fts: Seq<i64>, vectors: Seq<i64>, id: i64, n: int, r: int)
    requires
        0 <= n <= fts.len() + vectors.len(),
    ensures
        ranks_of(found(fts, vectors), fts.len() as int, id, n).contains(r) <==> (1 <= r <= fts.len()
            && r <= n && fts[r - 1] == id) || (1 <= r <= vectors.len() && fts.len() + r <= n
            && vectors[r - 1] == id),
    decreases n,
{
    if n > 0 {
        lemma_ranks_up_to(fts, vectors, id, n - 1, r);
        let ids = found(fts, vectors);
        let before = ranks_of(ids, fts.len() as int, id, n - 1);
        let rank = rank_at(fts.len() as int, n - 1);
        if n <= fts.len() {
            assert(ids[n - 1] == fts[n - 1]);
        } else {
            assert(ids[n - 1] == vectors[n - 1 - fts.len()]);
        }
        if ids[n - 1] == id {
            let after = before.push(rank);
            assert(after[before.len() as int] == rank);
            if before.contains(r) {
                let k = choose|k: int| 0 <= k < before.len() && before[k] == r;
                assert(after[k] == r);
            }
            if after.contains(r) && r != rank {
                let k = choose|k: int| 0 <= k < after.len() && after[k] == r;
                assert(before[k] == r);
            }
        }
    }
}

/// A chunk has as many ranks as it has places in the two rankings.
pub proof fn lemma_as_many_ranks_as_places(ids: Seq<i64>, fts_len: int, id: i64, n: int)
    requires
        0 < n <= ids.len(),
    ensures
        ranks_of(ids, fts_len, id, 0).len() == 0,
        ids[n - 1] == id ==> ranks_of(ids, fts_len, id, n).len() == ranks_of(
            ids,
            fts_len,
            id,
            n - 1,
        ).len() + 1,
        ids[n - 1] != id ==> ranks_of(ids, fts_len, id, n).len() == ranks_of(
            ids,
            fts_len,
            id,
            n - 1,
        ).len(),
{
}

/// A search for nothing is refused; any other looks for words, for meaning, or for both, as its
/// mode says.
pub proof fn lemma_what_a_search_needs(
    query: &str,
    fts: Result<SearchNeeds, Status>,
    vector: Result<SearchNeeds, Status>,
    hybrid: Result<SearchNeeds, Status>,
)
    requires
        call_ensures(check_search, (query, SearchMode::Fts), fts),
        call_ensures(check_search, (query, SearchMode::Vector), vector),
        call_ensures(check_search, (query, SearchMode::Hybrid), hybrid),
    ensures
        is_blank(query@) <==> fts is Err,
        is_blank(query@) <==> vector is Err,
        is_blank(query@) <==> hybrid is Err,
        fts is Ok ==> fts->Ok_0.text && !fts->Ok_0.embedding,
        vector is Ok ==> !vector->Ok_0.text && vector->Ok_0.embedding,
        hybrid is Ok ==> hybrid->Ok_0.text && hybrid->Ok_0.embedding,
        fts is Err ==> fts->Err_0@.code == Code::InvalidArgument,
{
}

/// At least one hit is shown, and three times as many are ranked as are asked for.
pub proof fn lemma_limits_of_a_search(limit: u32, shown: u32, ranked: u32)
    requires
        call_ensures(shown_limit, (limit,), shown),
        call_ensures(ranking_limit, (limit,), ranked),
    ensures
        limit > 0 ==> shown == limit,
        limit == 0 ==> shown == 1,
        3 * limit <= u32::MAX ==> ranked == 3 * limit,
        3 * limit > u32::MAX ==> ranked == u32::MAX,
{
}

/// A chunk that is found is what its row holds.
pub proof fn lemma_hit_is_its_row(row: FoundRow, column: usize, r: Result<FoundChunk, RowError>)
    requires
        column < usize::MAX,
        call_ensures(map_found_row, (row, column), r),
    ensures
        r is Ok <==> 0 <= row.start_line <= 0xffff_ffff && 0 <= row.end_line <= 0xffff_ffff,
        r is Ok ==> {
            let c = r->Ok_0;
            &&& c.node_id@ == row.node_id@ && c.path@ == row.path@
            &&& c.start_line == row.start_line && c.end_line == row.end_line
            &&& c.snippet@ == row.content@ && c.context_path@ == row.context_path@
            &&& c.headline_only <==> row.is_headline != 0
        },
{
}

/// A chunk of a file is what its row holds.
pub proof fn lemma_chunk_is_its_row(
    chunk_id: i64,
    start_line: i64,
    end_line: i64,
    content: String,
    r: Result<FileChunkRecord, RowError>,
)
    requires
        call_ensures(map_file_chunk_row, (chunk_id, start_line, end_line, content), r),
    ensures
        r is Ok <==> 0 <= start_line <= 0xffff_ffff && 0 <= end_line <= 0xffff_ffff,
        r is Ok ==> r->Ok_0.chunk_id == chunk_id && r->Ok_0.start_line == start_line
            && r->Ok_0.end_line == end_line && r->Ok_0.content@ == content@,
{
}

/// Every chunk that either ranking holds comes out once, with all its places.
pub proof fn lemma_rankings_are_fused(
    fts: &Vec<i64>,
    vectors: &Vec<i64>,
    r: Vec<FusedChunk>,
    id: i64,
    k: int,
    rank: int,
)
    requires
        fts@.len() + vectors@.len() <= usize::MAX,
        call_ensures(fuse_rankings, (fts, vectors), r),
    ensures
        (exists|j: int| 0 <= j < r@.len() && (#[trigger] r@[j]).chunk_id == id) <==> fts@.contains(
            id,
        ) || vectors@.contains(id),
        0 <= k < r@.len() ==> (r@[k].ranks@.map_values(|x: usize| x as int).contains(rank) <==> (1
            <= rank <= fts@.len() && fts@[rank - 1] == r@[k].chunk_id) || (1 <= rank
            <= vectors@.len() && vectors@[rank - 1] == r@[k].chunk_id)),
{
    let ids = found(fts@, vectors@);
    let n = (fts@.len() + vectors@.len()) as int;
    if 0 <= k < r@.len() {
        assert(fused_right(r@[k], ids, fts@.len() as int, n));
        lemma_ranks_are_places(fts@, vectors@, r@[k].chunk_id, rank);
    }
    if fts@.contains(id) {
        let i = choose|i: int| 0 <= i < fts@.len() && fts@[i] == id;
        assert(ids[i] == id);
    }
    if vectors@.contains(id) {
        let i = choose|i: int| 0 <= i < vectors@.len() && vectors@[i] == id;
        assert(ids[fts@.len() + i] == id);
    }
    if exists|j: int| 0 <= j < r@.len() && (#[trigger] r@[j]).chunk_id == id {
        let j = choose|j: int| 0 <= j < r@.len() && (#[trigger] r@[j]).chunk_id == id;
        assert(fused_right(r@[j], ids, fts@.len() as int, n));
        let at = r@[j].first as int;
        assert(ids.take(n)[at] == id);
        if at < fts@.len() {
            assert(fts@[at] == id);
        } else {
            assert(vectors@[at - fts@.len()] == id);
        }
    }
}

/// Chunks come out in the order in which they were first met, the first ranking before the second.
pub proof fn lemma_fused_in_order(
    fts: &Vec<i64>,
    vectors: &Vec<i64>,
    r: Vec<FusedChunk>,
    a: int,
    b: int,
)
    requires
        fts@.len() + vectors@.len() <= usize::MAX,
        call_ensures(fuse_rankings, (fts, vectors), r),
        0 <= a < b < r@.len(),
    ensures
        r@[a].first < r@[b].first < fts@.len() + vectors@.len(),
        (fts@ + vectors@)[r@[a].first as int] == r@[a].chunk_id,
        forall|j: int| 0 <= j < r@[a].first ==> #[trigger] (fts@ + vectors@)[j] != r@[a].chunk_id,
{
    let ids = found(fts@, vectors@);
    let n = (fts@.len() + vectors@.len()) as int;
    assert(fused_right(r@[a], ids, fts@.len() as int, n));
    assert(fused_right(r@[b], ids, fts@.len() as int, n));
    assert(ids.take(n) =~= ids);
}

} // verus!

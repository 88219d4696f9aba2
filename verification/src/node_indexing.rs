//! Embedding the chunks of one node: page by page, in batches, and one charge at the end.
//!
//! The chunks are listed a page at a time, behind the last one that was seen. Each page goes to
//! the provider in batches, and what comes back is stored batch by batch. Once nothing is left, an
//! event tells how much was indexed, and only then is the node billed.
use crate::credits::{EmbedTotals, EmbeddingCharge};
use crate::embedding::{
    batches_from,
    check_batch_answer,
    chunk_sizes,
    lemma_batches_cover,
    plan_batches,
    ranges,
};
use crate::model::ChunkContent;
use crate::numbers::saturated_u64;
use crate::text::{decimal, texts};
use vstd::prelude::*;
use vstd::utf8::encode_utf8;

verus! {

/// What is done next.
#[derive(Debug, Clone, Copy, PartialEq, Eq, Structural)]
pub enum IndexingStep {
    /// List the chunks whose ids are behind this one.
    List { after_id: i64 },
    /// Have these chunks of the page embedded.
    Embed { from: usize, to: usize },
    /// Store the embeddings of these chunks.
    Persist { from: usize, to: usize, charge: EmbeddingCharge },
    /// Write the event that tells of this many chunks.
    Emit { indexed: u32 },
    Done,
}

#[derive(Debug, Clone)]
pub struct NodeIndexing {
    batch_bytes: usize,
    page: Vec<ChunkContent>,
    batches: Vec<(usize, usize)>,
    /// The batch that is worked on.
    at: usize,
    totals: EmbedTotals,
    step: IndexingStep,
}

/// A chunk: its id and its text.
pub type ChunkView = (i64, Seq<char>);

pub open spec fn chunk_views(page: Seq<ChunkContent>) -> Seq<ChunkView> {
    page.map_values(|c: ChunkContent| (c.chunk_id, c.content@))
}

#[verifier::ext_equal]
pub struct IndexingView {
    pub batch_bytes: usize,
    pub page: Seq<ChunkView>,
    pub batches: Seq<(int, int)>,
    pub at: int,
    pub totals: EmbedTotals,
    pub step: IndexingStep,
}

impl View for NodeIndexing {
    type V = IndexingView;

    closed spec fn view(&self) -> IndexingView {
        IndexingView {
            batch_bytes: self.batch_bytes,
            page: chunk_views(self.page@),
            batches: ranges(self.batches@),
            at: self.at as int,
            totals: self.totals,
            step: self.step,
        }
    }
}

/// The batches of a page.
pub open spec fn page_batches(page: Seq<ChunkView>, batch_bytes: usize) -> Seq<(int, int)> {
    batches_from(
        page.map_values(|c: ChunkView| encode_utf8(c.1).len()),
        batch_bytes as int,
        0,
        0,
        0,
    )
}

impl IndexingView {
    /// The indexing once a page has been listed.
    pub open spec fn paged(self, page: Seq<ChunkView>) -> IndexingView {
        let batches = page_batches(page, self.batch_bytes);
        IndexingView {
            page,
            batches,
            at: 0,
            step: if page.len() == 0 {
                IndexingStep::Emit { indexed: self.totals.indexed }
            } else {
                IndexingStep::Embed { from: batches[0].0 as usize, to: batches[0].1 as usize }
            },
            ..self
        }
    }

    /// The indexing once the present batch has been embedded.
    pub open spec fn embedded(self, charge: EmbeddingCharge) -> IndexingView {
        IndexingView {
            step: match self.step {
                IndexingStep::Embed { from, to } => IndexingStep::Persist { from, to, charge },
                other => other,
            },
            ..self
        }
    }

    /// The indexing once the present batch has been stored, as that many rows.
    pub open spec fn persisted(self, rows: u32) -> IndexingView {
        match self.step {
            IndexingStep::Persist { charge, .. } => {
                let next = self.at + 1;
                IndexingView {
                    at: next,
                    totals: self.totals.with_batch(rows, charge),
                    step: if next < self.batches.len() {
                        IndexingStep::Embed {
                            from: self.batches[next].0 as usize,
                            to: self.batches[next].1 as usize,
                        }
                    } else {
                        IndexingStep::List { after_id: self.page.last().0 }
                    },
                    ..self
                }
            },
            _ => self,
        }
    }

    /// The present batch is the one at `at`.
    pub open spec fn is_at(self, from: usize, to: usize) -> bool {
        &&& 0 < self.page.len() <= usize::MAX
        &&& self.batches == page_batches(self.page, self.batch_bytes)
        &&& 0 <= self.at < self.batches.len()
        &&& self.batches[self.at] == (from as int, to as int)
        &&& from < to <= self.page.len()
    }

    pub open spec fn well_formed(self) -> bool {
        match self.step {
            IndexingStep::Embed { from, to } => self.is_at(from, to),
            IndexingStep::Persist { from, to, .. } => self.is_at(from, to),
            IndexingStep::Emit { indexed } => indexed == self.totals.indexed,
            _ => true,
        }
    }
}

/// The batches of a page lie one behind the other, from its first chunk to its last.
proof fn lemma_page_batches(page: Seq<ChunkView>, batch_bytes: usize)
    ensures
        ({
            let b = page_batches(page, batch_bytes);
            &&& page.len() > 0 ==> b.len() > 0 && b[0].0 == 0 && b.last().1 == page.len()
            &&& page.len() == 0 ==> b.len() == 0
            &&& forall|k: int|
                0 <= k < b.len() ==> 0 <= (#[trigger] b[k]).0 < b[k].1 <= page.len()
            &&& forall|k: int| 0 < k < b.len() ==> b[k - 1].1 == (#[trigger] b[k]).0
        }),
{
    let sizes = page.map_values(|c: ChunkView| encode_utf8(c.1).len());
    lemma_batches_cover(sizes, batch_bytes as int);
    let b = page_batches(page, batch_bytes);
    assert forall|k: int| 0 <= k < b.len() implies 0 <= (#[trigger] b[k]).0 < b[k].1
        <= page.len() by {
        lemma_ends_within(b, page.len() as int, k);
        lemma_starts_within(b, k);
    }
}

proof fn lemma_ends_within(b: Seq<(int, int)>, n: int, k: int)
    requires
        0 <= k < b.len(),
        b.last().1 == n,
        forall|k: int| 0 <= k < b.len() ==> (#[trigger] b[k]).0 < b[k].1,
        forall|k: int| 0 < k < b.len() ==> b[k - 1].1 == (#[trigger] b[k]).0,
    ensures
        b[k].1 <= n,
    decreases b.len() - k,
{
    if k + 1 < b.len() {
        lemma_ends_within(b, n, k + 1);
        assert(b[k + 1 - 1].1 == b[k + 1].0);
    }
}

proof fn lemma_starts_within(b: Seq<(int, int)>, k: int)
    requires
        0 <= k < b.len(),
        b[0].0 == 0,
        forall|k: int| 0 <= k < b.len() ==> (#[trigger] b[k]).0 < b[k].1,
        forall|k: int| 0 < k < b.len() ==> b[k - 1].1 == (#[trigger] b[k]).0,
    ensures
        0 <= b[k].0,
    decreases k,
{
    if k > 0 {
        lemma_starts_within(b, k - 1);
        assert(b[k - 1].1 == b[k].0);
    }
}

proof fn lemma_persisted(v: IndexingView, rows: u32)
    requires
        v.well_formed(),
        v.step is Persist,
    ensures
        v.persisted(rows).well_formed(),
{
    lemma_page_batches(v.page, v.batch_bytes);
}

impl NodeIndexing {
    /// Begins with the first chunks of the node.
    pub fn new(batch_bytes: usize) -> (r: NodeIndexing)
        ensures
            r@.well_formed(),
            r@ == (IndexingView {
                batch_bytes,
                page: Seq::empty(),
                batches: Seq::empty(),
                at: 0,
                totals: EmbedTotals::nothing(),
                step: IndexingStep::List { after_id: 0 },
            }),
    {
        let r = NodeIndexing {
            batch_bytes,
            page: Vec::new(),
            batches: Vec::new(),
            at: 0,
            totals: EmbedTotals::new(),
            step: IndexingStep::List { after_id: 0 },
        };
        proof {
            assert(r@.page =~= Seq::empty());
            assert(r@.batches =~= Seq::empty());
        }
        r
    }

    /// What is done next.
    pub fn step(&self) -> (r: IndexingStep)
        ensures
            r == self@.step,
    {
        self.step
    }

    /// What has been stored so far.
    pub fn totals(&self) -> (r: EmbedTotals)
        ensures
            r == self@.totals,
    {
        self.totals
    }

    /// Takes in the page that was asked for.
    pub fn take_page(&mut self, page: Vec<ChunkContent>)
        requires
            old(self)@.step is List,
        ensures
            final(self)@ == old(self)@.paged(chunk_views(page@)),
            final(self)@.well_formed(),
    {
        let batches = plan_batches(&page, self.batch_bytes);
        proof {
            let views = chunk_views(page@);
            assert(views.map_values(|c: ChunkView| encode_utf8(c.1).len()) =~= chunk_sizes(page@));
            assert(ranges(batches@) == page_batches(views, self.batch_bytes));
            lemma_page_batches(views, self.batch_bytes);
            assert(views.len() == page@.len());
            if page@.len() > 0 {
                assert(ranges(batches@).len() == batches@.len());
                assert(ranges(batches@)[0] == (batches@[0].0 as int, batches@[0].1 as int));
            }
        }
        self.step = if page.len() == 0 {
            IndexingStep::Emit { indexed: self.totals.indexed }
        } else {
            IndexingStep::Embed { from: batches[0].0, to: batches[0].1 }
        };
        self.page = page;
        self.batches = batches;
        self.at = 0;
    }

    /// The ids and the texts of the present batch.
    pub fn batch(&self) -> (r: (Vec<i64>, Vec<String>))
        requires
            self@.well_formed(),
            self@.step is Embed || self@.step is Persist,
        ensures
            ({
                let (from, to) = self@.batches[self@.at];
                let chunks = self@.page.subrange(from, to);
                &&& r.0@ == chunks.map_values(|c: ChunkView| c.0)
                &&& texts(r.1@) == chunks.map_values(|c: ChunkView| c.1)
            }),
    {
        let (from, to) = self.batches[self.at];
        let mut ids: Vec<i64> = Vec::new();
        let mut inputs: Vec<String> = Vec::new();
        let mut i: usize = from;
        let ghost views = self@.page;
        proof {
            assert(self@.batches[self@.at] == (from as int, to as int));
            assert(views.len() == self.page@.len());
        }
        while i < to
            invariant
                from <= i <= to <= self.page@.len(),
                views == chunk_views(self.page@),
                ids@ == views.subrange(from as int, i as int).map_values(|c: ChunkView| c.0),
                texts(inputs@) == views.subrange(from as int, i as int).map_values(
                    |c: ChunkView| c.1,
                ),
            decreases to - i,
        {
            ids.push(self.page[i].chunk_id);
            let ghost before = inputs@;
            let text = self.page[i].content.clone();
            inputs.push(text);
            proof {
                assert(views[i as int] == (
                    self.page@[i as int].chunk_id,
                    self.page@[i as int].content@,
                ));
                let grown = views.subrange(from as int, i + 1);
                assert(grown =~= views.subrange(from as int, i as int).push(views[i as int]));
                assert(ids@ =~= grown.map_values(|c: ChunkView| c.0));
                assert(texts(inputs@) =~= texts(before).push(text@));
                assert(texts(inputs@) =~= grown.map_values(|c: ChunkView| c.1));
            }
            i += 1;
        }
        (ids, inputs)
    }

    /// The provider answered with that many embeddings. There have to be as many as chunks.
    pub fn take_embedded(&mut self, outputs: usize, charge: EmbeddingCharge) -> (r: Result<
        (),
        String,
    >)
        requires
            old(self)@.well_formed(),
            old(self)@.step is Embed,
        ensures
            final(self)@.well_formed(),
            ({
                let (from, to) = old(self)@.batches[old(self)@.at];
                if outputs == to - from {
                    r is Ok && final(self)@ == old(self)@.embedded(charge)
                } else {
                    &&& r matches Err(m)
                    &&& m@ == "embedding batch size mismatch: "@ + decimal((to - from) as nat)
                        + " inputs vs "@ + decimal(outputs as nat) + " outputs"@
                    &&& final(self)@ == old(self)@
                }
            }),
    {
        if let IndexingStep::Embed { from, to } = self.step {
            match check_batch_answer(to - from, outputs) {
                Ok(_) => {},
                Err(m) => {
                    return Err(m);
                },
            }
            self.step = IndexingStep::Persist { from, to, charge };
        }
        Ok(())
    }

    /// What follows when the batch at `next` is the next one, or there is none.
    fn step_at(&self, next: usize) -> (r: IndexingStep)
        requires
            self.page@.len() > 0,
        ensures
            r == (if next < self@.batches.len() {
                IndexingStep::Embed {
                    from: self@.batches[next as int].0 as usize,
                    to: self@.batches[next as int].1 as usize,
                }
            } else {
                IndexingStep::List { after_id: self@.page.last().0 }
            }),
    {
        if next < self.batches.len() {
            let (from, to) = self.batches[next];
            IndexingStep::Embed { from, to }
        } else {
            let last: usize = self.page.len() - 1;
            IndexingStep::List { after_id: self.page[last].chunk_id }
        }
    }

    /// The present batch was stored, as that many rows.
    pub fn take_persisted(&mut self, rows: u32)
        requires
            old(self)@.well_formed(),
            old(self)@.step is Persist,
        ensures
            final(self)@ == old(self)@.persisted(rows),
            final(self)@.well_formed(),
    {
        let ghost v = self@;
        proof {
            lemma_persisted(v, rows);
        }
        if let IndexingStep::Persist { from: _, to: _, charge } = self.step {
            proof {
                assert(v.batches.len() == self.batches.len());
            }
            self.totals.add_batch(rows, &charge);
            let next: usize = self.at + 1;
            self.at = next;
            self.step = self.step_at(next);
            proof {
                assert(self@.batches == v.batches);
                assert(self@.page == v.page);
                assert(self@ == v.persisted(rows));
            }
        }
    }

    /// The event was written: the node is done, and this is what it is billed.
    pub fn take_emitted(&mut self) -> (r: Option<EmbeddingCharge>)
        requires
            old(self)@.step is Emit,
        ensures
            final(self)@ == (IndexingView { step: IndexingStep::Done, ..old(self)@ }),
            r == bill_of(old(self)@.totals),
    {
        self.step = IndexingStep::Done;
        self.totals.charge()
    }
}

// ---------------------------------------------------------------------------
// Laws
// ---------------------------------------------------------------------------

/// What a node is billed for these totals: nothing where nothing was used.
pub open spec fn bill_of(totals: EmbedTotals) -> Option<EmbeddingCharge> {
    if totals.tokens > 0 || totals.credits > 0 {
        Some(
            EmbeddingCharge {
                total_tokens: totals.tokens,
                credits: totals.credits,
                from_upstream_usage: totals.any_upstream_usage,
            },
        )
    } else {
        None
    }
}

/// The totals behind these batches.
pub open spec fn totals_of(stored: Seq<(u32, EmbeddingCharge)>) -> EmbedTotals
    decreases stored.len(),
{
    if stored.len() == 0 {
        EmbedTotals::nothing()
    } else {
        totals_of(stored.drop_last()).with_batch(stored.last().0, stored.last().1)
    }
}

pub open spec fn tokens_of(stored: Seq<(u32, EmbeddingCharge)>) -> nat
    decreases stored.len(),
{
    if stored.len() == 0 {
        0
    } else {
        tokens_of(stored.drop_last()) + stored.last().1.total_tokens as nat
    }
}

pub open spec fn credits_of(stored: Seq<(u32, EmbeddingCharge)>) -> nat
    decreases stored.len(),
{
    if stored.len() == 0 {
        0
    } else {
        credits_of(stored.drop_last()) + stored.last().1.credits as nat
    }
}

/// A node is billed for the sum of what its batches used, as far as the counters go.
pub proof fn lemma_bill_is_sum(stored: Seq<(u32, EmbeddingCharge)>)
    ensures
        totals_of(stored).tokens == saturated_u64(tokens_of(stored) as int),
        totals_of(stored).credits == saturated_u64(credits_of(stored) as int),
        bill_of(totals_of(stored)) is Some <==> tokens_of(stored) > 0 || credits_of(stored) > 0,
    decreases stored.len(),
{
    if stored.len() > 0 {
        lemma_bill_is_sum(stored.drop_last());
    }
}

/// The totals of an indexing keep up with the batches that are stored.
pub proof fn lemma_totals_keep_up(
    v: IndexingView,
    stored: Seq<(u32, EmbeddingCharge)>,
    rows: u32,
)
    requires
        v.totals == totals_of(stored),
        v.step is Persist,
    ensures
        v.persisted(rows).totals == totals_of(stored.push((rows, v.step->charge))),
{
    assert(stored.push((rows, v.step->charge)).drop_last() =~= stored);
}

/// The ids of a node's chunks rise.
pub open spec fn ids_rise(all: Seq<ChunkView>) -> bool {
    forall|i: int, j: int| 0 <= i < j < all.len() ==> (#[trigger] all[i]).0 < (#[trigger] all[j]).0
}

/// How many chunks come up to `id`.
pub open spec fn up_to(all: Seq<ChunkView>, id: i64) -> int
    decreases all.len(),
{
    if all.len() == 0 {
        0
    } else if all.last().0 <= id {
        all.len() as int
    } else {
        up_to(all.drop_last(), id)
    }
}

/// The first `rows` of the chunks behind `id`.
pub open spec fn page_behind(all: Seq<ChunkView>, id: i64, rows: usize) -> Seq<ChunkView> {
    let at = up_to(all, id);
    if all.len() - at <= rows {
        all.skip(at)
    } else {
        all.subrange(at, at + rows)
    }
}

impl IndexingView {
    /// How many of the node's chunks have been stored.
    pub open spec fn stored(self, all: Seq<ChunkView>) -> int {
        match self.step {
            IndexingStep::List { after_id } => up_to(all, after_id),
            IndexingStep::Embed { from, .. } => up_to(all, self.page[0].0) - 1 + from,
            IndexingStep::Persist { from, .. } => up_to(all, self.page[0].0) - 1 + from,
            _ => all.len() as int,
        }
    }

    /// The page is a piece of the node's chunks, beginning where the first of it is.
    pub open spec fn on_track(self, all: Seq<ChunkView>) -> bool {
        &&& self.well_formed()
        &&& self.step is Embed || self.step is Persist ==> {
            let base = up_to(all, self.page[0].0) - 1;
            &&& 0 <= base
            &&& base + self.page.len() <= all.len()
            &&& self.page == all.subrange(base, base + self.page.len())
        }
    }
}

proof fn lemma_up_to(all: Seq<ChunkView>, id: i64)
    requires
        ids_rise(all),
    ensures
        0 <= up_to(all, id) <= all.len(),
        forall|i: int| 0 <= i < up_to(all, id) ==> (#[trigger] all[i]).0 <= id,
        forall|i: int| up_to(all, id) <= i < all.len() ==> (#[trigger] all[i]).0 > id,
    decreases all.len(),
{
    if all.len() > 0 && all.last().0 > id {
        let init = all.drop_last();
        assert forall|i: int, j: int| 0 <= i < j < init.len() implies (#[trigger] init[i]).0 < (
        #[trigger] init[j]).0 by {
            assert(init[i] == all[i] && init[j] == all[j]);
        }
        lemma_up_to(init, id);
        assert forall|i: int| 0 <= i < up_to(all, id) implies (#[trigger] all[i]).0 <= id by {
            assert(all[i] == init[i]);
        }
        assert forall|i: int| up_to(all, id) <= i < all.len() implies (#[trigger] all[i]).0
            > id by {
            if i < init.len() {
                assert(all[i] == init[i]);
            }
        }
    }
}

proof fn lemma_up_to_own(all: Seq<ChunkView>, k: int)
    requires
        ids_rise(all),
        0 <= k < all.len(),
    ensures
        up_to(all, all[k].0) == k + 1,
{
    lemma_up_to(all, all[k].0);
    let n = up_to(all, all[k].0);
    if n <= k {
        assert(all[k].0 > all[k].0);
    }
    if n > k + 1 {
        assert(all[k].0 < all[k + 1].0);
        assert(all[k + 1].0 <= all[k].0);
    }
}

/// A page goes on where the chunks stored so far end. Where it is empty, all of them are stored.
pub proof fn lemma_page_goes_on(v: IndexingView, all: Seq<ChunkView>, rows: usize)
    requires
        ids_rise(all),
        rows > 0,
        v.step is List,
    ensures
        ({
            let w = v.paged(page_behind(all, v.step->after_id, rows));
            &&& w.on_track(all)
            &&& w.stored(all) == v.stored(all)
            &&& w.step is Emit <==> v.stored(all) == all.len()
        }),
{
    let id = v.step->after_id;
    lemma_up_to(all, id);
    let at = up_to(all, id);
    let page = page_behind(all, id, rows);
    lemma_page_batches(page, v.batch_bytes);
    if at < all.len() {
        assert(page[0] == all[at]);
        lemma_up_to_own(all, at);
        assert(page =~= all.subrange(at, at + page.len()));
    }
}

/// Storing a batch moves on by exactly its chunks, which are the next ones of the node: none is
/// left out, and none is embedded twice.
pub proof fn lemma_batch_goes_on(v: IndexingView, all: Seq<ChunkView>, rows: u32)
    requires
        ids_rise(all),
        v.on_track(all),
        v.step is Persist,
    ensures
        ({
            let (from, to) = v.batches[v.at];
            let w = v.persisted(rows);
            &&& v.page.subrange(from, to) == all.subrange(
                v.stored(all),
                v.stored(all) + (to - from),
            )
            &&& w.on_track(all)
            &&& w.stored(all) == v.stored(all) + (to - from)
            &&& w.stored(all) > v.stored(all)
        }),
{
    let (from, to) = v.batches[v.at];
    let base = up_to(all, v.page[0].0) - 1;
    lemma_page_batches(v.page, v.batch_bytes);
    assert(v.page.subrange(from, to) =~= all.subrange(base + from, base + to));
    let next = v.at + 1;
    if next < v.batches.len() {
        assert(v.batches[next - 1].1 == v.batches[next].0);
    } else {
        assert(v.batches.last() == v.batches[v.at]);
        let n = v.page.len();
        assert(v.page.last() == all[base + n - 1]);
        lemma_up_to_own(all, base + n - 1);
    }
}

/// What is billed is all that was counted, and nothing is billed where nothing was.
pub proof fn lemma_bill_is_what_was_counted(totals: EmbedTotals)
    ensures
        bill_of(totals) is None <==> totals.tokens == 0 && totals.credits == 0,
        bill_of(totals) is Some ==> bill_of(totals)->0.total_tokens == totals.tokens && bill_of(
            totals,
        )->0.credits == totals.credits && bill_of(totals)->0.from_upstream_usage
            == totals.any_upstream_usage,
{
}

/// Embeddings are stored under the chunks that they were made of, and storing a batch counts its
/// rows; embedding alone counts nothing.
pub proof fn lemma_embedded_is_stored(v: IndexingView, charge: EmbeddingCharge, rows: u32)
    requires
        v.step is Embed,
    ensures
        ({
            let w = v.embedded(charge);
            let x = w.persisted(rows);
            &&& w.step is Persist && w.step->charge == charge
            &&& w.totals == v.totals && w.page == v.page && w.batches == v.batches && w.at == v.at
            &&& w.batch_bytes == v.batch_bytes && x.batch_bytes == v.batch_bytes
            &&& v.step->Embed_from == w.step->Persist_from && v.step->Embed_to
                == w.step->Persist_to
            &&& x.at == v.at + 1 && x.page == v.page && x.batches == v.batches
            &&& v.totals.indexed + rows <= u32::MAX ==> x.totals.indexed == v.totals.indexed + rows
            &&& v.totals.tokens + charge.total_tokens <= u64::MAX ==> x.totals.tokens
                == v.totals.tokens + charge.total_tokens
            &&& v.totals.credits + charge.credits <= u64::MAX ==> x.totals.credits
                == v.totals.credits + charge.credits
        }),
{
}

/// Behind an id are exactly the chunks with a larger one.
pub proof fn lemma_chunks_behind(all: Seq<ChunkView>, id: i64, i: int)
    requires
        ids_rise(all),
        0 <= i < all.len(),
    ensures
        0 <= up_to(all, id) <= all.len(),
        i < up_to(all, id) <==> all[i].0 <= id,
    decreases all.len(),
{
    if all.last().0 <= id {
        assert(i < all.len() - 1 ==> all[i].0 < all[all.len() - 1].0);
    } else if i < all.len() - 1 {
        assert(ids_rise(all.drop_last()));
        assert(all.drop_last()[i] == all[i]);
        lemma_chunks_behind(all.drop_last(), id, i);
    } else if all.len() > 1 {
        assert(ids_rise(all.drop_last()));
        lemma_chunks_behind(all.drop_last(), id, 0);
    }
}

} // verus!

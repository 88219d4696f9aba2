//! Embedding text by a provider: which one, in which batches, and what its answers mean.
use crate::lists::reversed;
use crate::model::ChunkContent;
use crate::status::{status_of, Code, Status};
use crate::text::{
    ascii_lowercase, blank, decimal, from_chars, is_blank, join2, lowercase_text, push_decimal,
    same_text, to_chars, trim, trim_text,
};
use crate::utf8_text::byte_len;
use vstd::prelude::*;
use vstd::string::StringExecFns;
use vstd::utf8::encode_utf8;

verus! {

/// The length of the vectors that the built-in provider makes.
pub const MOCK_DIMENSIONS: usize = 32;

#[derive(Debug, Clone, PartialEq, Eq)]
pub enum EmbeddingError {
    Transport(String),
    Upstream { status: String, body: String },
    ResponseShape(String),
}

#[verifier::ext_equal]
pub enum EmbeddingErrorView {
    Transport(Seq<char>),
    Upstream { status: Seq<char>, body: Seq<char> },
    ResponseShape(Seq<char>),
}

impl View for EmbeddingError {
    type V = EmbeddingErrorView;

    open spec fn view(&self) -> EmbeddingErrorView {
        match *self {
            EmbeddingError::Transport(m) => EmbeddingErrorView::Transport(m@),
            EmbeddingError::Upstream { status, body } => EmbeddingErrorView::Upstream {
                status: status@,
                body: body@,
            },
            EmbeddingError::ResponseShape(m) => EmbeddingErrorView::ResponseShape(m@),
        }
    }
}

impl EmbeddingErrorView {
    /// The sentence that an error is reported with.
    pub open spec fn message(self) -> Seq<char> {
        match self {
            EmbeddingErrorView::Transport(m) => "embedding provider transport error: "@ + m,
            EmbeddingErrorView::Upstream { status, body } =>
                "embedding provider rejected request with status="@ + status + ": "@ + body,
            EmbeddingErrorView::ResponseShape(m) => "embedding provider response malformed: "@ + m,
        }
    }

    /// A provider that cannot be reached, or refuses, may be there again later.
    pub open spec fn code(self) -> Code {
        match self {
            EmbeddingErrorView::ResponseShape(_) => Code::Internal,
            _ => Code::Unavailable,
        }
    }
}

impl EmbeddingError {
    pub fn message(&self) -> (r: String)
        ensures
            r@ == self@.message(),
    {
        match self {
            EmbeddingError::Transport(m) => join2("embedding provider transport error: ", m),
            EmbeddingError::Upstream { status, body } => {
                let mut r = "embedding provider rejected request with status=".to_owned();
                r.append(status.as_str());
                r.append(": ");
                r.append(body.as_str());
                r
            },
            EmbeddingError::ResponseShape(m) => join2("embedding provider response malformed: ", m),
        }
    }
}

/// The answer to a request that failed at the provider.
pub fn embedding_status(err: &EmbeddingError) -> (r: Status)
    ensures
        r@ == status_of(err@.code(), err@.message()),
{
    let code = match err {
        EmbeddingError::Transport(_) => Code::Unavailable,
        EmbeddingError::Upstream { .. } => Code::Unavailable,
        EmbeddingError::ResponseShape(_) => Code::Internal,
    };
    Status { code, message: err.message() }
}

/// A value that a provider made, and what it costs.
#[derive(Debug, Clone)]
pub struct EmbedOutcome<T> {
    pub value: T,
    pub charge: crate::credits::EmbeddingCharge,
}

/// The built-in provider.
#[derive(Debug, Clone, PartialEq, Eq)]
pub struct MockEmbeddingProvider {
    pub model_id: String,
}

impl Default for MockEmbeddingProvider {
    fn default() -> (r: MockEmbeddingProvider)
        ensures
            r.model_id@ == "mock-embedding-32d"@,
    {
        MockEmbeddingProvider { model_id: "mock-embedding-32d".to_owned() }
    }
}

impl MockEmbeddingProvider {
    pub fn provider_kind(&self) -> (r: &'static str)
        ensures
            r@ == "mock"@,
    {
        "mock"
    }

    pub fn model_id(&self) -> (r: &str)
        ensures
            r@ == self.model_id@,
    {
        self.model_id.as_str()
    }

    /// The charge for embedding some texts: the estimated tokens, and no credits.
    pub fn charge_for(&self, inputs: &[String]) -> (r: crate::credits::EmbeddingCharge)
        requires
            crate::credits::estimated_tokens_of_all(inputs@) <= u64::MAX,
        ensures
            r.total_tokens == crate::credits::estimated_tokens_of_all(inputs@),
            r.credits == 0,
            !r.from_upstream_usage,
    {
        crate::credits::EmbeddingCharge {
            total_tokens: crate::credits::estimate_tokens_batch(inputs),
            credits: 0,
            from_upstream_usage: false,
        }
    }
}

// ---------------------------------------------------------------------------
// Settings
// ---------------------------------------------------------------------------

/// A truth value as it is written in settings.
pub open spec fn bool_setting(value: Seq<char>) -> Option<bool> {
    let v = ascii_lowercase(trim(value));
    if v == "1"@ || v == "true"@ || v == "yes"@ || v == "on"@ {
        Some(true)
    } else if v == "0"@ || v == "false"@ || v == "no"@ || v == "off"@ {
        Some(false)
    } else {
        None
    }
}

pub fn parse_bool_env(value: &str) -> (r: Option<bool>)
    ensures
        r == bool_setting(value@),
{
    let v = lowercase_text(trim_text(value).as_str());
    let s = v.as_str();
    if same_text(s, "1") || same_text(s, "true") || same_text(s, "yes") || same_text(s, "on") {
        Some(true)
    } else if same_text(s, "0") || same_text(s, "false") || same_text(s, "no") || same_text(
        s,
        "off",
    ) {
        Some(false)
    } else {
        None
    }
}

/// Which provider embeds.
#[derive(Debug, Clone, Copy, PartialEq, Eq, Structural)]
pub enum ProviderKind {
    Mock,
    OpenAiCompatible,
}

/// The provider that a setting names; the built-in one where there is no setting.
pub open spec fn provider_setting(raw: Option<Seq<char>>) -> Result<ProviderKind, Seq<char>> {
    let name = match raw {
        Some(r) => ascii_lowercase(trim(r)),
        None => "mock"@,
    };
    if name == "mock"@ {
        Ok(ProviderKind::Mock)
    } else if name == "openai-compatible"@ || name == "openai"@ {
        Ok(ProviderKind::OpenAiCompatible)
    } else {
        Err(
            "unsupported SCRYD_EMBED_PROVIDER='"@ + name
                + "', expected one of: mock, openai-compatible"@,
        )
    }
}

pub fn provider_from_setting(raw: Option<&str>) -> (r: Result<ProviderKind, String>)
    ensures
        match r {
            Ok(k) => provider_setting(crate::paths::opt_text(raw)) == Ok::<
                ProviderKind,
                Seq<char>,
            >(k),
            Err(m) => provider_setting(crate::paths::opt_text(raw)) == Err::<
                ProviderKind,
                Seq<char>,
            >(m@),
        },
{
    let name = match raw {
        Some(r) => lowercase_text(trim_text(r).as_str()),
        None => {
            return Ok(ProviderKind::Mock);
        },
    };
    let s = name.as_str();
    if same_text(s, "mock") {
        Ok(ProviderKind::Mock)
    } else if same_text(s, "openai-compatible") || same_text(s, "openai") {
        Ok(ProviderKind::OpenAiCompatible)
    } else {
        Err(
            crate::text::join3(
                "unsupported SCRYD_EMBED_PROVIDER='",
                s,
                "', expected one of: mock, openai-compatible",
            ),
        )
    }
}

/// `s` without the slashes that it ends in.
pub open spec fn strip_end_slashes(s: Seq<char>) -> Seq<char>
    decreases s.len(),
{
    if s.len() > 0 && s.last() == '/' {
        strip_end_slashes(s.drop_last())
    } else {
        s
    }
}

/// The address that embeddings are asked for at.
pub fn embeddings_endpoint(base_url: &str) -> (r: String)
    ensures
        r@ == strip_end_slashes(base_url@) + "/v1/embeddings"@,
{
    let v = to_chars(base_url);
    let mut n = v.len();
    proof {
        assert(v@.take(n as int) =~= v@);
    }
    while n > 0 && v[n - 1] == '/'
        invariant
            n <= v@.len(),
            strip_end_slashes(v@) == strip_end_slashes(v@.take(n as int)),
        decreases n,
    {
        proof {
            assert(v@.take(n as int).drop_last() =~= v@.take(n - 1));
        }
        n -= 1;
    }
    proof {
        assert(v@.take(n as int) =~= v@.subrange(0, n as int));
    }
    join2(from_chars(&v, 0, n).as_str(), "/v1/embeddings")
}

/// A setting that is blank is none.
pub fn given_setting(raw: Option<String>) -> (r: Option<String>)
    ensures
        r == (match raw {
            Some(s) => if is_blank(s@) {
                None
            } else {
                Some(s)
            },
            None => None,
        }),
{
    match raw {
        Some(s) => {
            if blank(s.as_str()) {
                None
            } else {
                Some(s)
            }
        },
        None => None,
    }
}

// ---------------------------------------------------------------------------
// Answers
// ---------------------------------------------------------------------------

/// The last of the items that is for the input `i`.
pub open spec fn placed<T>(items: Seq<(usize, T)>, i: int) -> Option<T>
    decreases items.len(),
{
    if items.len() == 0 {
        None
    } else if items.last().0 == i {
        Some(items.last().1)
    } else {
        placed(items.drop_last(), i)
    }
}

/// `k` is the first item for an input that there is not.
pub open spec fn first_misplaced<T>(items: Seq<(usize, T)>, n: int, k: int) -> bool {
    &&& 0 <= k < items.len()
    &&& items[k].0 >= n
    &&& forall|j: int| 0 <= j < k ==> (#[trigger] items[j]).0 < n
}

/// `i` is the first input that no item is for.
pub open spec fn first_missing<T>(items: Seq<(usize, T)>, n: int, i: int) -> bool {
    &&& 0 <= i < n
    &&& placed(items, i) is None
    &&& forall|j: int| 0 <= j < i ==> #[trigger] placed(items, j) is Some
}

pub open spec fn misplaced_message(index: nat, n: nat) -> Seq<char> {
    "embedding index "@ + decimal(index) + " out of range for "@ + decimal(n) + " inputs"@
}

pub open spec fn missing_message(index: nat) -> Seq<char> {
    "missing embedding at index "@ + decimal(index) + " in provider response"@
}

/// Brings the items of an answer into the order of the `n` inputs that they are for. Each input
/// needs one, and an item for no input is an error.
pub fn order_embeddings<T>(items: Vec<(usize, T)>, n: usize) -> (r: Result<
    Vec<T>,
    EmbeddingError,
>)
    ensures
        match r {
            Ok(v) => {
                &&& forall|k: int| 0 <= k < items@.len() ==> (#[trigger] items@[k]).0 < n
                &&& v@.len() == n
                &&& forall|i: int| 0 <= i < n ==> placed(items@, i) == Some(#[trigger] v@[i])
            },
            Err(e) => {
                ||| exists|k: int|
                    first_misplaced(items@, n as int, k) && e@ == EmbeddingErrorView::ResponseShape(
                        misplaced_message(#[trigger] items@[k].0 as nat, n as nat),
                    )
                ||| (forall|k: int| 0 <= k < items@.len() ==> (#[trigger] items@[k]).0 < n)
                    && exists|i: int| #[trigger]
                    first_missing(items@, n as int, i) && e@ == EmbeddingErrorView::ResponseShape(
                        missing_message(i as nat),
                    )
            },
        },
{
    let mut ordered: Vec<Option<T>> = Vec::new();
    let mut i: usize = 0;
    while i < n
        invariant
            i <= n,
            ordered@.len() == i,
            forall|j: int| 0 <= j < i ==> #[trigger] ordered@[j] is None,
        decreases n - i,
    {
        ordered.push(None);
        i += 1;
    }
    let ghost all = items@;
    // The items are taken from the front: the last of `queue` is the next one.
    let mut queue = reversed(items);
    proof {
        assert(all.skip(0) =~= all);
        assert(queue@ =~= all.skip(0).reverse());
        assert(all.take(0) =~= Seq::empty());
    }
    while queue.len() > 0
        invariant
            all == items@,
            queue@.len() <= all.len(),
            queue@ == all.skip(all.len() - queue@.len()).reverse(),
            ordered@.len() == n,
            forall|k: int| 0 <= k < all.len() - queue@.len() ==> (#[trigger] all[k]).0 < n,
            forall|j: int|
                0 <= j < n ==> #[trigger] ordered@[j] == placed(
                    all.take(all.len() - queue@.len()),
                    j,
                ),
        decreases queue@.len(),
    {
        let ghost m = all.len() - queue@.len();
        let (index, value) = queue.pop().unwrap();
        proof {
            assert(all.skip(m).reverse().last() == all[m]);
            assert((index, value) == all[m]);
            assert(queue@ =~= all.skip(m + 1).reverse());
            assert(all.take(m + 1).drop_last() =~= all.take(m));
        }
        if index >= n {
            proof {
                assert(first_misplaced(all, n as int, m));
            }
            let mut message = "embedding index ".to_owned();
            push_decimal(&mut message, index as u64);
            message.append(" out of range for ");
            push_decimal(&mut message, n as u64);
            message.append(" inputs");
            return Err(EmbeddingError::ResponseShape(message));
        }
        ordered.set(index, Some(value));
        proof {
            assert forall|j: int| 0 <= j < n implies #[trigger] ordered@[j] == placed(
                all.take(m + 1),
                j,
            ) by {
                assert(all.take(m + 1).last() == all[m]);
            }
        }
    }
    proof {
        assert(all.take(all.len() as int) =~= all);
    }
    let mut out: Vec<T> = Vec::new();
    let ghost whole = ordered@;
    let mut backwards = reversed(ordered);
    proof {
        assert(whole.skip(0) =~= whole);
        assert(backwards@ =~= whole.skip(0).reverse());
    }
    while backwards.len() > 0
        invariant
            all == items@,
            whole.len() == n,
            backwards@.len() <= whole.len(),
            backwards@ == whole.skip(whole.len() - backwards@.len()).reverse(),
            out@.len() == whole.len() - backwards@.len(),
            forall|j: int| 0 <= j < n ==> #[trigger] whole[j] == placed(all, j),
            forall|k: int| 0 <= k < all.len() ==> (#[trigger] all[k]).0 < n,
            forall|j: int| 0 <= j < out@.len() ==> placed(all, j) == Some(#[trigger] out@[j]),
        decreases backwards@.len(),
    {
        let ghost m = whole.len() - backwards@.len();
        let position = out.len();
        let x = backwards.pop().unwrap();
        proof {
            assert(whole.skip(m).reverse().last() == whole[m]);
            assert(x == whole[m]);
            assert(backwards@ =~= whole.skip(m + 1).reverse());
        }
        match x {
            Some(value) => {
                out.push(value);
            },
            None => {
                proof {
                    assert forall|j: int| 0 <= j < m implies #[trigger] placed(all, j) is Some by {
                        assert(placed(all, j) == Some(out@[j]));
                    }
                    assert(first_missing(all, n as int, m));
                }
                let mut message = "missing embedding at index ".to_owned();
                push_decimal(&mut message, position as u64);
                message.append(" in provider response");
                return Err(EmbeddingError::ResponseShape(message));
            },
        }
    }
    Ok(out)
}

/// A query needs exactly one embedding.
pub fn check_query_answer(count: usize) -> (r: Result<(), EmbeddingError>)
    ensures
        match r {
            Ok(_) => count == 1,
            Err(e) => count != 1 && e@ == EmbeddingErrorView::ResponseShape(
                "expected exactly 1 query embedding, got "@ + decimal(count as nat),
            ),
        },
{
    if count == 1 {
        return Ok(());
    }
    let mut message = "expected exactly 1 query embedding, got ".to_owned();
    push_decimal(&mut message, count as u64);
    Err(EmbeddingError::ResponseShape(message))
}

/// A batch needs as many embeddings as it has inputs.
pub fn check_batch_answer(inputs: usize, outputs: usize) -> (r: Result<(), String>)
    ensures
        match r {
            Ok(_) => inputs == outputs,
            Err(m) => inputs != outputs && m@ == "embedding batch size mismatch: "@ + decimal(
                inputs as nat,
            ) + " inputs vs "@ + decimal(outputs as nat) + " outputs"@,
        },
{
    if inputs == outputs {
        return Ok(());
    }
    let mut m = "embedding batch size mismatch: ".to_owned();
    push_decimal(&mut m, inputs as u64);
    m.append(" inputs vs ");
    push_decimal(&mut m, outputs as u64);
    m.append(" outputs");
    Err(m)
}

// ---------------------------------------------------------------------------
// Batches
// ---------------------------------------------------------------------------

/// The sizes of chunks in bytes.
pub open spec fn chunk_sizes(page: Seq<ChunkContent>) -> Seq<nat> {
    page.map_values(|c: ChunkContent| encode_utf8(c.content@).len())
}

pub open spec fn saturated_usize(n: int) -> int {
    if n > usize::MAX {
        usize::MAX as int
    } else {
        n
    }
}

/// The batches of the chunks from `from` on, where those in front of `i` are in the open batch
/// and have `running` bytes. A chunk that would take the batch over the limit opens another.
pub open spec fn batches_from(
    sizes: Seq<nat>,
    limit: int,
    from: int,
    i: int,
    running: int,
) -> Seq<(int, int)>
    decreases sizes.len() - i,
{
    if i >= sizes.len() {
        if from < sizes.len() {
            seq![(from, sizes.len() as int)]
        } else {
            Seq::empty()
        }
    } else if from < i && saturated_usize(running + sizes[i]) > limit {
        seq![(from, i)] + batches_from(sizes, limit, i, i + 1, saturated_usize(sizes[i] as int))
    } else {
        batches_from(sizes, limit, from, i + 1, saturated_usize(running + sizes[i]))
    }
}

pub open spec fn ranges(v: Seq<(usize, usize)>) -> Seq<(int, int)> {
    v.map_values(|r: (usize, usize)| (r.0 as int, r.1 as int))
}

/// Divides a page of chunks into batches for the provider, each within the limit of bytes unless
/// it holds a single chunk.
pub fn plan_batches(page: &Vec<ChunkContent>, batch_bytes: usize) -> (r: Vec<(usize, usize)>)
    ensures
        ranges(r@) == batches_from(chunk_sizes(page@), batch_bytes as int, 0, 0, 0),
{
    let ghost sizes = chunk_sizes(page@);
    let ghost all = batches_from(sizes, batch_bytes as int, 0, 0, 0);
    let mut out: Vec<(usize, usize)> = Vec::new();
    let mut from: usize = 0;
    let mut running: usize = 0;
    let mut i: usize = 0;
    let n = page.len();
    proof {
        assert(ranges(out@) + all =~= all);
    }
    while i < n
        invariant
            n == page@.len(),
            sizes == chunk_sizes(page@),
            from <= i <= n,
            all == ranges(out@) + batches_from(
                sizes,
                batch_bytes as int,
                from as int,
                i as int,
                running as int,
            ),
        decreases n - i,
    {
        let size = byte_len(page[i].content.as_str());
        assert(sizes[i as int] == size);
        let ghost before = ranges(out@);
        let grown: usize = if size > usize::MAX - running {
            usize::MAX
        } else {
            running + size
        };
        if from < i && grown > batch_bytes {
            out.push((from, i));
            proof {
                assert(ranges(out@) =~= before.push((from as int, i as int)));
                let rest = batches_from(
                    sizes,
                    batch_bytes as int,
                    i as int,
                    i + 1,
                    size as int,
                );
                assert(before + (seq![(from as int, i as int)] + rest) =~= before.push(
                    (from as int, i as int),
                ) + rest);
            }
            from = i;
            running = size;
        } else {
            running = grown;
        }
        i += 1;
    }
    if from < n {
        let ghost before = ranges(out@);
        out.push((from, n));
        proof {
            assert(ranges(out@) =~= before + seq![(from as int, n as int)]);
        }
    } else {
        proof {
            assert(ranges(out@) + Seq::empty() =~= ranges(out@));
        }
    }
    out
}

pub open spec fn sum_of_sizes(sizes: Seq<nat>, from: int, to: int) -> nat
    decreases to - from,
{
    if to <= from {
        0
    } else {
        sum_of_sizes(sizes, from, to - 1) + sizes[to - 1]
    }
}

/// Batches lose no chunk and keep the order: each begins where the one before ends, the first with
/// the first chunk, and the last ends with the last chunk. None is empty, and only a batch of a
/// single chunk is over the limit, where the limit is one. A batch ends only where the next chunk
/// would take it over the limit.
pub proof fn lemma_batches_cover(sizes: Seq<nat>, limit: int)
    ensures
        ({
            let b = batches_from(sizes, limit, 0, 0, 0);
            &&& sizes.len() > 0 ==> b.len() > 0 && b[0].0 == 0 && b.last().1 == sizes.len()
            &&& sizes.len() == 0 ==> b.len() == 0
            &&& forall|k: int| 0 <= k < b.len() ==> (#[trigger] b[k]).0 < b[k].1
            &&& forall|k: int| 0 < k < b.len() ==> b[k - 1].1 == (#[trigger] b[k]).0
            &&& forall|k: int|
                0 <= k < b.len() - 1 ==> sum_of_sizes(sizes, (#[trigger] b[k]).0, b[k].1 + 1)
                    > limit
            &&& limit < usize::MAX ==> forall|k: int|
                0 <= k < b.len() ==> (#[trigger] b[k]).1 == b[k].0 + 1 || sum_of_sizes(
                    sizes,
                    b[k].0,
                    b[k].1,
                ) <= limit
        }),
{
    lemma_batches_from(sizes, limit, 0, 0, 0);
}

proof fn lemma_batches_from(sizes: Seq<nat>, limit: int, from: int, i: int, running: int)
    requires
        0 <= from <= i <= sizes.len(),
        running == saturated_usize(sum_of_sizes(sizes, from, i) as int),
        limit < usize::MAX ==> i <= from + 1 || sum_of_sizes(sizes, from, i) <= limit,
        i == from ==> i == 0,
    ensures
        ({
            let b = batches_from(sizes, limit, from, i, running);
            &&& from < sizes.len() ==> b.len() > 0 && b[0].0 == from && b.last().1 == sizes.len()
            &&& from >= sizes.len() ==> b.len() == 0
            &&& forall|k: int| 0 <= k < b.len() ==> (#[trigger] b[k]).0 < b[k].1
            &&& forall|k: int| 0 < k < b.len() ==> b[k - 1].1 == (#[trigger] b[k]).0
            &&& forall|k: int|
                0 <= k < b.len() - 1 ==> sum_of_sizes(sizes, (#[trigger] b[k]).0, b[k].1 + 1)
                    > limit
            &&& limit < usize::MAX ==> forall|k: int|
                0 <= k < b.len() ==> (#[trigger] b[k]).1 == b[k].0 + 1 || sum_of_sizes(
                    sizes,
                    b[k].0,
                    b[k].1,
                ) <= limit
        }),
    decreases sizes.len() - i,
{
    if i < sizes.len() {
        let next = saturated_usize(running + sizes[i]);
        assert(sum_of_sizes(sizes, from, i + 1) == sum_of_sizes(sizes, from, i) + sizes[i]);
        if from < i && next > limit {
            assert(sum_of_sizes(sizes, i, i) == 0);
            assert(sum_of_sizes(sizes, i, i + 1) == sizes[i]);
            let running2 = saturated_usize(sizes[i] as int);
            lemma_batches_from(sizes, limit, i, i + 1, running2);
            let rest = batches_from(sizes, limit, i, i + 1, running2);
            let b = batches_from(sizes, limit, from, i, running);
            assert(b == seq![(from, i)] + rest);
            assert(b.last() == rest.last());
            assert forall|k: int| 0 <= k < b.len() implies {
                &&& (#[trigger] b[k]).0 < b[k].1
                &&& limit < usize::MAX ==> b[k].1 == b[k].0 + 1 || sum_of_sizes(
                    sizes,
                    b[k].0,
                    b[k].1,
                ) <= limit
            } by {
                if k > 0 {
                    assert(b[k] == rest[k - 1]);
                }
            }
            assert forall|k: int| 0 < k < b.len() implies b[k - 1].1 == (#[trigger] b[k]).0 by {
                assert(b[k] == rest[k - 1]);
                if k > 1 {
                    assert(b[k - 1] == rest[k - 2]);
                }
            }
        } else {
            lemma_batches_from(sizes, limit, from, i + 1, next);
        }
    }
}

/// A provider that answers with something else than was asked for is a fault inside; one that
/// cannot be reached, or refuses, is only away for now.
pub proof fn lemma_provider_faults(m: Seq<char>, status: Seq<char>)
    ensures
        EmbeddingErrorView::ResponseShape(m).code() == Code::Internal,
        EmbeddingErrorView::Transport(m).code() == Code::Unavailable,
        (EmbeddingErrorView::Upstream { status, body: m }).code() == Code::Unavailable,
        EmbeddingErrorView::Transport(m).message() == "embedding provider transport error: "@ + m,
        (EmbeddingErrorView::Upstream { status, body: m }).message()
            == "embedding provider rejected request with status="@ + status + ": "@ + m,
        EmbeddingErrorView::ResponseShape(m).message()
            == "embedding provider response malformed: "@ + m,
{
}

/// A switch is on for four words and off for four others, in whatever letters and with blanks round
/// them, and for no other.
pub proof fn lemma_words_of_a_switch(value: Seq<char>)
    ensures
        ({
            let v = ascii_lowercase(trim(value));
            &&& bool_setting(value) == Some(true) <==> v == "1"@ || v == "true"@ || v == "yes"@ || v
                == "on"@
            &&& bool_setting(value) == Some(false) <==> v == "0"@ || v == "false"@ || v == "no"@
                || v == "off"@
        }),
{
    reveal_strlit("1");
    reveal_strlit("true");
    reveal_strlit("yes");
    reveal_strlit("on");
    reveal_strlit("0");
    reveal_strlit("false");
    reveal_strlit("no");
    reveal_strlit("off");
    assert("1"@[0] != "0"@[0]);
    assert("yes"@[0] != "off"@[0]);
    assert("on"@[1] != "no"@[1]);
    assert("true"@.len() == 4 && "false"@.len() == 5 && "yes"@.len() == 3 && "on"@.len() == 2);
    assert("1"@.len() == 1 && "0"@.len() == 1 && "no"@.len() == 2 && "off"@.len() == 3);
}

/// A provider that is not named is the one that stands in for a real one, and the real one has two
/// names.
pub proof fn lemma_names_of_providers(raw: Seq<char>)
    ensures
        provider_setting(None) == Ok::<ProviderKind, Seq<char>>(ProviderKind::Mock),
        ({
            let v = ascii_lowercase(trim(raw));
            let r = provider_setting(Some(raw));
            &&& r == Ok::<ProviderKind, Seq<char>>(ProviderKind::Mock) <==> v == "mock"@
            &&& r == Ok::<ProviderKind, Seq<char>>(ProviderKind::OpenAiCompatible) <==> v
                == "openai-compatible"@ || v == "openai"@
            &&& r is Err ==> r == Err::<ProviderKind, Seq<char>>(
                "unsupported SCRYD_EMBED_PROVIDER='"@ + v
                    + "', expected one of: mock, openai-compatible"@,
            )
        }),
{
    reveal_strlit("mock");
    reveal_strlit("openai-compatible");
    reveal_strlit("openai");
    assert("mock"@.len() == 4 && "openai-compatible"@.len() == 17 && "openai"@.len() == 6);
}

/// Only slashes are taken from the end of an address, and all of them.
pub proof fn lemma_end_slashes(s: Seq<char>)
    ensures
        ({
            let t = strip_end_slashes(s);
            &&& t.len() <= s.len()
            &&& t == s.take(t.len() as int)
            &&& t.len() > 0 ==> t.last() != '/'
            &&& forall|i: int| t.len() <= i < s.len() ==> s[i] == '/'
        }),
    decreases s.len(),
{
    if s.len() > 0 && s.last() == '/' {
        lemma_end_slashes(s.drop_last());
        let t = strip_end_slashes(s.drop_last());
        assert(t =~= s.take(t.len() as int));
        assert forall|i: int| t.len() <= i < s.len() implies s[i] == '/' by {
            if i < s.len() - 1 {
                assert(s.drop_last()[i] == '/');
            }
        }
    } else {
        assert(s =~= s.take(s.len() as int));
    }
}

/// What stands at a place is the last that was sent for it, and nothing stands where nothing was
/// sent.
pub proof fn lemma_placed_is_last_sent<T>(items: Seq<(usize, T)>, i: int)
    ensures
        placed(items, i) is None ==> forall|k: int|
            0 <= k < items.len() ==> (#[trigger] items[k]).0 != i,
        placed(items, i) is Some ==> exists|k: int|
            {
                &&& 0 <= k < items.len()
                &&& (#[trigger] items[k]).0 == i
                &&& placed(items, i) == Some(items[k].1)
                &&& forall|j: int| k < j < items.len() ==> (#[trigger] items[j]).0 != i
            },
    decreases items.len(),
{
    if items.len() > 0 && items.last().0 != i {
        lemma_placed_is_last_sent(items.drop_last(), i);
        let front = items.drop_last();
        if placed(front, i) is Some {
            let k = choose|k: int|
                {
                    &&& 0 <= k < front.len()
                    &&& (#[trigger] front[k]).0 == i
                    &&& placed(front, i) == Some(front[k].1)
                    &&& forall|j: int| k < j < front.len() ==> (#[trigger] front[j]).0 != i
                };
            assert(items[k] == front[k]);
            assert forall|j: int| k < j < items.len() implies (#[trigger] items[j]).0 != i by {
                if j < front.len() {
                    assert(front[j] == items[j]);
                }
            }
        } else {
            assert forall|k: int| 0 <= k < items.len() implies (#[trigger] items[k]).0 != i by {
                if k < front.len() {
                    assert(front[k] == items[k]);
                }
            }
        }
    } else if items.len() > 0 {
        assert(items[items.len() - 1].0 == i);
    }
}

/// An answer counts where it holds as many embeddings as there were texts, and one for a query.
pub proof fn lemma_answers_that_count(
    count: usize,
    query: Result<(), EmbeddingError>,
    inputs: usize,
    batch: Result<(), String>,
)
    requires
        call_ensures(check_query_answer, (count,), query),
        call_ensures(check_batch_answer, (inputs, count), batch),
    ensures
        query is Ok <==> count == 1,
        batch is Ok <==> inputs == count,
{
}

/// Embeddings come in the order of their texts, whatever order they were sent in.
pub proof fn lemma_embeddings_in_order<T>(
    items: Vec<(usize, T)>,
    n: usize,
    r: Result<Vec<T>, EmbeddingError>,
    k: int,
)
    requires
        call_ensures(order_embeddings::<T>, (items, n), r),
        r is Ok,
        0 <= k < items@.len(),
        forall|j: int| 0 <= j < items@.len() && j != k ==> (#[trigger] items@[j]).0 != items@[k].0,
    ensures
        r->Ok_0@.len() == n,
        items@[k].0 < n,
        r->Ok_0@[items@[k].0 as int] == items@[k].1,
{
    let at = items@[k].0 as int;
    assert(placed(items@, at) == Some(r->Ok_0@[at]));
    lemma_placed_is_last_sent(items@, at);
}

} // verus!

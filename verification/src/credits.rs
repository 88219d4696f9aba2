//! What embedding costs: tokens, counted by the provider or estimated, and credits.
use crate::numbers::saturated_u64;
use crate::utf8_text::byte_len;
use vstd::prelude::*;
use vstd::string::StringSliceAdditionalSpecFns;
use vstd::utf8::encode_utf8;

verus! {

/// The charge for one call of the provider.
#[derive(Debug, Clone, Copy, PartialEq, Eq, Structural)]
pub struct EmbeddingCharge {
    pub total_tokens: u64,
    pub credits: u64,
    /// The provider counted the tokens; else they were estimated.
    pub from_upstream_usage: bool,
}

/// An estimate of a text's tokens: one for every four bytes that it begins.
pub open spec fn estimated_tokens(text: Seq<char>) -> nat {
    ((encode_utf8(text).len() + 3) / 4) as nat
}

pub fn estimate_tokens_utf8(text: &str) -> (r: u64)
    ensures
        r == estimated_tokens(text@),
        r == 0 <==> text.spec_bytes().len() == 0,
{
    let n = byte_len(text) as u64;
    if n % 4 == 0 {
        n / 4
    } else {
        n / 4 + 1
    }
}

/// The estimate for some texts together.
pub open spec fn estimated_tokens_of_all(inputs: Seq<String>) -> nat
    decreases inputs.len(),
{
    if inputs.len() == 0 {
        0
    } else {
        estimated_tokens_of_all(inputs.drop_last()) + estimated_tokens(inputs.last()@)
    }
}

proof fn lemma_estimate_of_prefix(inputs: Seq<String>, i: int)
    requires
        0 <= i <= inputs.len(),
    ensures
        estimated_tokens_of_all(inputs.take(i)) <= estimated_tokens_of_all(inputs),
    decreases inputs.len() - i,
{
    if i < inputs.len() {
        lemma_estimate_of_prefix(inputs, i + 1);
        assert(inputs.take(i + 1).drop_last() =~= inputs.take(i));
    } else {
        assert(inputs.take(i) =~= inputs);
    }
}

pub fn estimate_tokens_batch(inputs: &[String]) -> (r: u64)
    requires
        estimated_tokens_of_all(inputs@) <= u64::MAX,
    ensures
        r == estimated_tokens_of_all(inputs@),
{
    let mut total: u64 = 0;
    let mut i: usize = 0;
    proof {
        assert(inputs@.take(0) =~= Seq::empty());
    }
    while i < inputs.len()
        invariant
            i <= inputs@.len(),
            estimated_tokens_of_all(inputs@) <= u64::MAX,
            total == estimated_tokens_of_all(inputs@.take(i as int)),
        decreases inputs@.len() - i,
    {
        proof {
            assert(inputs@.take(i + 1).drop_last() =~= inputs@.take(i as int));
            lemma_estimate_of_prefix(inputs@, i + 1);
        }
        total = total + estimate_tokens_utf8(inputs[i].as_str());
        i += 1;
    }
    proof {
        assert(inputs@.take(inputs@.len() as int) =~= inputs@);
    }
    total
}

/// What the provider reports of a call.
#[derive(Debug, Clone, Copy, PartialEq, Eq, Structural)]
pub struct Usage {
    pub prompt_tokens: Option<u64>,
    pub total_tokens: Option<u64>,
}

/// The tokens that are reported: the total, else those of the prompt.
pub open spec fn reported_tokens(usage: Option<Usage>) -> Option<u64> {
    match usage {
        Some(u) => match u.total_tokens {
            Some(t) => Some(t),
            None => u.prompt_tokens,
        },
        None => None,
    }
}

pub fn usage_total_tokens(u: &Usage) -> (r: Option<u64>)
    ensures
        r == reported_tokens(Some(*u)),
{
    match u.total_tokens {
        Some(t) => Some(t),
        None => u.prompt_tokens,
    }
}

/// The tokens that a call is charged for, and whether the provider counted them.
pub fn settle_tokens(usage: Option<Usage>, inputs: &[String]) -> (r: (u64, bool))
    requires
        estimated_tokens_of_all(inputs@) <= u64::MAX,
    ensures
        match reported_tokens(usage) {
            Some(t) => r == (t, true),
            None => r.0 == estimated_tokens_of_all(inputs@) && !r.1,
        },
{
    let reported = match usage {
        Some(u) => usage_total_tokens(&u),
        None => None,
    };
    match reported {
        Some(t) => (t, true),
        None => (estimate_tokens_batch(inputs), false),
    }
}

/// What has been billed since the start.
#[derive(Debug, Clone, Copy, PartialEq, Eq, Structural)]
pub struct BillingCounters {
    pub credits_total: u64,
    pub tokens_total: u64,
    pub upstream_usage_total: u64,
    pub estimated_total: u64,
}

pub open spec fn wrapped_sum(a: u64, b: u64) -> u64 {
    if a + b > u64::MAX {
        (a + b - u64::MAX - 1) as u64
    } else {
        (a + b) as u64
    }
}

impl BillingCounters {
    /// The counters behind a charge. One for nothing counts for nothing; counters wrap around.
    pub open spec fn charged(self, charge: EmbeddingCharge) -> BillingCounters {
        if charge.total_tokens == 0 && charge.credits == 0 {
            self
        } else {
            BillingCounters {
                credits_total: wrapped_sum(self.credits_total, charge.credits),
                tokens_total: wrapped_sum(self.tokens_total, charge.total_tokens),
                upstream_usage_total: if charge.from_upstream_usage {
                    wrapped_sum(self.upstream_usage_total, 1)
                } else {
                    self.upstream_usage_total
                },
                estimated_total: if charge.from_upstream_usage {
                    self.estimated_total
                } else {
                    wrapped_sum(self.estimated_total, 1)
                },
            }
        }
    }

    pub fn new() -> (r: BillingCounters)
        ensures
            r == (BillingCounters {
                credits_total: 0,
                tokens_total: 0,
                upstream_usage_total: 0,
                estimated_total: 0,
            }),
    {
        BillingCounters {
            credits_total: 0,
            tokens_total: 0,
            upstream_usage_total: 0,
            estimated_total: 0,
        }
    }

    pub fn record_embedding_charge(&mut self, charge: &EmbeddingCharge)
        ensures
            *final(self) == old(self).charged(*charge),
    {
        if charge.total_tokens == 0 && charge.credits == 0 {
            return;
        }
        self.credits_total = self.credits_total.wrapping_add(charge.credits);
        self.tokens_total = self.tokens_total.wrapping_add(charge.total_tokens);
        if charge.from_upstream_usage {
            self.upstream_usage_total = self.upstream_usage_total.wrapping_add(1);
        } else {
            self.estimated_total = self.estimated_total.wrapping_add(1);
        }
    }
}

/// What embedding all chunks of a node adds up to.
#[derive(Debug, Clone, Copy, PartialEq, Eq, Structural)]
pub struct EmbedTotals {
    pub indexed: u32,
    pub tokens: u64,
    pub credits: u64,
    pub any_upstream_usage: bool,
}

pub open spec fn saturated_sum_u32(a: u32, b: u32) -> u32 {
    if a + b > u32::MAX {
        u32::MAX
    } else {
        (a + b) as u32
    }
}

impl EmbedTotals {
    pub open spec fn nothing() -> EmbedTotals {
        EmbedTotals { indexed: 0, tokens: 0, credits: 0, any_upstream_usage: false }
    }

    /// The totals behind a batch.
    pub open spec fn with_batch(self, persisted: u32, charge: EmbeddingCharge) -> EmbedTotals {
        EmbedTotals {
            indexed: saturated_sum_u32(self.indexed, persisted),
            tokens: saturated_u64(self.tokens + charge.total_tokens),
            credits: saturated_u64(self.credits + charge.credits),
            any_upstream_usage: self.any_upstream_usage || charge.from_upstream_usage,
        }
    }

    pub fn new() -> (r: EmbedTotals)
        ensures
            r == EmbedTotals::nothing(),
    {
        EmbedTotals { indexed: 0, tokens: 0, credits: 0, any_upstream_usage: false }
    }

    pub fn add_batch(&mut self, persisted: u32, charge: &EmbeddingCharge)
        ensures
            *final(self) == old(self).with_batch(persisted, *charge),
    {
        self.indexed = self.indexed.saturating_add(persisted);
        self.tokens = self.tokens.saturating_add(charge.total_tokens);
        self.credits = self.credits.saturating_add(charge.credits);
        self.any_upstream_usage = self.any_upstream_usage || charge.from_upstream_usage;
    }

    /// The one charge for a node, once all of it is embedded; none where nothing was used.
    pub fn charge(&self) -> (r: Option<EmbeddingCharge>)
        ensures
            r == (if self.tokens > 0 || self.credits > 0 {
                Some(
                    EmbeddingCharge {
                        total_tokens: self.tokens,
                        credits: self.credits,
                        from_upstream_usage: self.any_upstream_usage,
                    },
                )
            } else {
                None
            }),
    {
        if self.tokens > 0 || self.credits > 0 {
            Some(
                EmbeddingCharge {
                    total_tokens: self.tokens,
                    credits: self.credits,
                    from_upstream_usage: self.any_upstream_usage,
                },
            )
        } else {
            None
        }
    }
}

/// The estimate for two lots of texts is the sum of the two estimates.
pub proof fn lemma_estimates_add_up(a: Seq<String>, b: Seq<String>)
    ensures
        estimated_tokens_of_all(a + b) == estimated_tokens_of_all(a) + estimated_tokens_of_all(b),
    decreases b.len(),
{
    if b.len() == 0 {
        assert(a + b =~= a);
    } else {
        lemma_estimates_add_up(a, b.drop_last());
        assert((a + b).drop_last() =~= a + b.drop_last());
    }
}

/// A token is estimated for every four bytes of a text that are begun.
pub proof fn lemma_four_bytes_a_token(text: Seq<char>)
    ensures
        4 * estimated_tokens(text) >= encode_utf8(text).len(),
        4 * estimated_tokens(text) < encode_utf8(text).len() + 4,
{
}

/// What the provider reports is its total, or what it counted of the prompt where it gave no total.
pub proof fn lemma_what_is_reported(prompt_tokens: Option<u64>, t: u64)
    ensures
        reported_tokens(None) is None,
        reported_tokens(Some(Usage { prompt_tokens, total_tokens: Some(t) })) == Some(t),
        reported_tokens(Some(Usage { prompt_tokens, total_tokens: None })) == prompt_tokens,
{
}

/// A charge goes to its own counters: the credits and the tokens by as much as they are, and one of
/// the two that tell how the tokens were counted by one. A charge of nothing goes to none.
pub proof fn lemma_charges_are_counted(b: BillingCounters, charge: EmbeddingCharge)
    ensures
        charge.total_tokens == 0 && charge.credits == 0 ==> b.charged(charge) == b,
        charge.total_tokens > 0 || charge.credits > 0 ==> {
            let c = b.charged(charge);
            &&& b.credits_total + charge.credits <= u64::MAX ==> c.credits_total == b.credits_total
                + charge.credits
            &&& b.tokens_total + charge.total_tokens <= u64::MAX ==> c.tokens_total
                == b.tokens_total + charge.total_tokens
            &&& charge.from_upstream_usage ==> c.estimated_total == b.estimated_total && (
            b.upstream_usage_total < u64::MAX ==> c.upstream_usage_total == b.upstream_usage_total
                + 1)
            &&& !charge.from_upstream_usage ==> c.upstream_usage_total == b.upstream_usage_total
                && (b.estimated_total < u64::MAX ==> c.estimated_total == b.estimated_total + 1)
        },
{
}

/// A counter that goes beyond the largest number begins again at zero.
pub proof fn lemma_counters_begin_again(a: u64, b: u64)
    ensures
        a + b <= u64::MAX ==> wrapped_sum(a, b) == a + b,
        a + b > u64::MAX ==> wrapped_sum(a, b) == a + b - 0x1_0000_0000_0000_0000,
        a + b <= u32::MAX && a <= u32::MAX && b <= u32::MAX ==> saturated_sum_u32(
            a as u32,
            b as u32,
        ) == a + b,
{
}

/// A batch adds its rows, tokens and credits to the totals, and tells of the provider's count where
/// it has one.
pub proof fn lemma_batches_are_counted(t: EmbedTotals, persisted: u32, charge: EmbeddingCharge)
    ensures
        ({
            let u = t.with_batch(persisted, charge);
            &&& t.indexed + persisted <= u32::MAX ==> u.indexed == t.indexed + persisted
            &&& t.indexed + persisted > u32::MAX ==> u.indexed == u32::MAX
            &&& t.tokens + charge.total_tokens <= u64::MAX ==> u.tokens == t.tokens
                + charge.total_tokens
            &&& t.tokens + charge.total_tokens > u64::MAX ==> u.tokens == u64::MAX
            &&& t.credits + charge.credits <= u64::MAX ==> u.credits == t.credits + charge.credits
            &&& t.credits + charge.credits > u64::MAX ==> u.credits == u64::MAX
            &&& u.any_upstream_usage <==> t.any_upstream_usage || charge.from_upstream_usage
        }),
{
}

/// What is charged in the end is all that was counted, and nothing where nothing was.
pub proof fn lemma_charge_is_what_was_counted(t: &EmbedTotals, r: Option<EmbeddingCharge>)
    requires
        call_ensures(EmbedTotals::charge, (t,), r),
    ensures
        r is None <==> t.tokens == 0 && t.credits == 0,
        r is Some ==> r->0.total_tokens == t.tokens && r->0.credits == t.credits
            && r->0.from_upstream_usage == t.any_upstream_usage,
        EmbedTotals::nothing().indexed == 0,
        EmbedTotals::nothing().tokens == 0,
        EmbedTotals::nothing().credits == 0,
        !EmbedTotals::nothing().any_upstream_usage,
{
}

/// Tokens are what the provider counted, where it did, and else an estimate of a quarter of the
/// bytes.
pub proof fn lemma_tokens_are_settled(
    text: &str,
    estimate: u64,
    t: u64,
    usage: Usage,
    inputs: &[String],
    counted: (u64, bool),
    estimated: (u64, bool),
)
    requires
        estimated_tokens_of_all(inputs@) <= u64::MAX,
        usage.total_tokens == Some(t),
        call_ensures(estimate_tokens_utf8, (text,), estimate),
        call_ensures(settle_tokens, (Some(usage), inputs), counted),
        call_ensures(settle_tokens, (None, inputs), estimated),
    ensures
        encode_utf8(text@).len() <= 4 * estimate < encode_utf8(text@).len() + 4,
        counted == (t, true),
        estimated.0 == estimated_tokens_of_all(inputs@),
        !estimated.1,
{
    lemma_four_bytes_a_token(text@);
}

} // verus!

//! What the server tells of itself: counters, a histogram of request times, and their text form.
use crate::numbers::saturated_u64;
use crate::paths::{last_slash, lemma_last_slash, strip_leading_slashes, strip_slashes};
use crate::text::{
    ascii_lowercase, decimal, from_chars, has_prefix, lemma_decimal_value, lowercase_text, same_text,
    starts_with,
    to_chars, trim, trim_text,
};
use vstd::prelude::*;

verus! {

// ---------------------------------------------------------------------------
// Requests
// ---------------------------------------------------------------------------

/// The service and the method that the path of a request names.
pub open spec fn grpc_path(path: Seq<char>) -> (Seq<char>, Seq<char>) {
    let t = strip_slashes(path);
    let k = last_slash(t);
    if 0 < k < t.len() - 1 {
        (t.take(k), t.skip(k + 1))
    } else {
        ("unknown"@, "unknown"@)
    }
}

pub fn parse_grpc_path(path: &str) -> (r: (String, String))
    ensures
        (r.0@, r.1@) == grpc_path(path@),
{
    let t = strip_leading_slashes(path);
    let v = to_chars(t.as_str());
    let n = v.len();
    let mut k: usize = n;
    proof {
        assert(v@.take(n as int) =~= v@);
    }
    while k > 0 && v[k - 1] != '/'
        invariant
            k <= n,
            n == v@.len(),
            last_slash(v@) == last_slash(v@.take(k as int)),
        decreases k,
    {
        proof {
            assert(v@.take(k as int).drop_last() =~= v@.take(k - 1));
        }
        k -= 1;
    }
    proof {
        if k > 0 {
            assert(v@.take(k as int).last() == '/');
        }
    }
    if k > 1 && k < n {
        proof {
            assert(v@.take(k - 1) =~= v@.subrange(0, k - 1));
            assert(v@.skip(k as int) =~= v@.subrange(k as int, n as int));
        }
        return (from_chars(&v, 0, k - 1), from_chars(&v, k, n));
    }
    ("unknown".to_owned(), "unknown".to_owned())
}

/// A code of gRPC in decimal digits, without leading zeros.
pub open spec fn is_grpc_code(s: Seq<char>) -> bool {
    exists|n: nat| n <= 16 && s == #[trigger] decimal(n)
}

/// The code that a response is counted under: that of its header, and success without one.
pub open spec fn grpc_code_of(header: Option<Seq<char>>) -> Seq<char> {
    match header {
        None => "0"@,
        Some(h) => if is_grpc_code(h) {
            h
        } else {
            "unknown"@
        },
    }
}

pub fn grpc_status_code(header: Option<&str>) -> (r: String)
    ensures
        r@ == grpc_code_of(crate::paths::opt_text(header)),
{
    match header {
        None => "0".to_owned(),
        Some(h) => {
            let mut n: u64 = 0;
            while n <= 16
                invariant
                    n <= 17,
                    crate::paths::opt_text(header) == Some(h@),
                    forall|k: nat| k < n ==> h@ != #[trigger] decimal(k),
                decreases 17 - n,
            {
                let d = crate::text::decimal_text(n);
                if same_text(h, d.as_str()) {
                    assert(h@ == decimal(n as nat));
                    return d;
                }
                n += 1;
            }
            "unknown".to_owned()
        },
    }
}

/// The code that a request is counted under: that of its response, or the word for one that got
/// none.
pub fn rpc_code(answered: bool, header: Option<&str>) -> (r: String)
    ensures
        r@ == if answered {
            grpc_code_of(crate::paths::opt_text(header))
        } else {
            "transport"@
        },
{
    if answered {
        grpc_status_code(header)
    } else {
        "transport".to_owned()
    }
}

/// The way in which a request is authorized, for the log.
pub open spec fn auth_kind_of(header: Option<Seq<char>>) -> Seq<char> {
    match header {
        None => "none"@,
        Some(h) => if has_prefix(ascii_lowercase(h), "bearer "@) {
            "bearer"@
        } else if has_prefix(ascii_lowercase(h), "basic "@) {
            "basic"@
        } else {
            "other"@
        },
    }
}

pub fn auth_kind(header: Option<&str>) -> (r: &'static str)
    ensures
        r@ == auth_kind_of(crate::paths::opt_text(header)),
{
    match header {
        None => "none",
        Some(h) => {
            let lower = lowercase_text(h);
            if starts_with(lower.as_str(), "bearer ") {
                "bearer"
            } else if starts_with(lower.as_str(), "basic ") {
                "basic"
            } else {
                "other"
            }
        },
    }
}

/// The id of a request: the one that it brings, trimmed, or else a fresh one.
pub fn request_id(header: Option<&str>, fresh: String) -> (r: String)
    ensures
        r@ == (match crate::paths::opt_text(header) {
            Some(h) => if trim(h).len() > 0 {
                trim(h)
            } else {
                fresh@
            },
            None => fresh@,
        }),
{
    match header {
        Some(h) => {
            let t = trim_text(h);
            if t.as_str().is_empty() {
                fresh
            } else {
                t
            }
        },
        None => fresh,
    }
}

// ---------------------------------------------------------------------------
// Counting requests
// ---------------------------------------------------------------------------

/// The bounds of the histogram in nanoseconds, from a millisecond to ten seconds.
pub open spec fn bucket_bounds() -> Seq<u64> {
    seq![
        1_000_000u64,
        5_000_000u64,
        10_000_000u64,
        25_000_000u64,
        50_000_000u64,
        100_000_000u64,
        250_000_000u64,
        500_000_000u64,
        1_000_000_000u64,
        2_500_000_000u64,
        5_000_000_000u64,
        10_000_000_000u64,
    ]
}

pub const BUCKETS: usize = 12;

fn bucket_bound(i: usize) -> (r: u64)
    requires
        i < BUCKETS,
    ensures
        r == bucket_bounds()[i as int],
{
    match i {
        0 => 1_000_000,
        1 => 5_000_000,
        2 => 10_000_000,
        3 => 25_000_000,
        4 => 50_000_000,
        5 => 100_000_000,
        6 => 250_000_000,
        7 => 500_000_000,
        8 => 1_000_000_000,
        9 => 2_500_000_000,
        10 => 5_000_000_000,
        _ => 10_000_000_000,
    }
}

/// The bounds in seconds, as they are written.
pub open spec fn bucket_label_of(i: int) -> Seq<char> {
    if i == 0 {
        "0.001"@
    } else if i == 1 {
        "0.005"@
    } else if i == 2 {
        "0.01"@
    } else if i == 3 {
        "0.025"@
    } else if i == 4 {
        "0.05"@
    } else if i == 5 {
        "0.1"@
    } else if i == 6 {
        "0.25"@
    } else if i == 7 {
        "0.5"@
    } else if i == 8 {
        "1"@
    } else if i == 9 {
        "2.5"@
    } else if i == 10 {
        "5"@
    } else {
        "10"@
    }
}

pub(crate) fn bucket_label(i: usize) -> (r: &'static str)
    requires
        i < BUCKETS,
    ensures
        r@ == bucket_label_of(i as int),
{
    match i {
        0 => "0.001",
        1 => "0.005",
        2 => "0.01",
        3 => "0.025",
        4 => "0.05",
        5 => "0.1",
        6 => "0.25",
        7 => "0.5",
        8 => "1",
        9 => "2.5",
        10 => "5",
        _ => "10",
    }
}

/// Times of requests: how many were at most each bound, how long all took, and how many there were.
#[derive(Debug, Clone, PartialEq, Eq)]
pub struct RpcDurationHist {
    pub buckets: Vec<u64>,
    pub sum_ns: u64,
    pub count: u64,
}

#[verifier::ext_equal]
pub struct HistView {
    pub buckets: Seq<u64>,
    pub sum_ns: u64,
    pub count: u64,
}

impl View for RpcDurationHist {
    type V = HistView;

    open spec fn view(&self) -> HistView {
        HistView { buckets: self.buckets@, sum_ns: self.sum_ns, count: self.count }
    }
}

impl HistView {
    pub open spec fn empty() -> HistView {
        HistView { buckets: Seq::new(BUCKETS as nat, |i: int| 0u64), sum_ns: 0, count: 0 }
    }

    pub open spec fn valid(self) -> bool {
        self.buckets.len() == BUCKETS
    }

    /// The histogram with one more request, which took `elapsed_ns` nanoseconds.
    pub open spec fn with_request(self, elapsed_ns: int) -> HistView {
        HistView {
            buckets: Seq::new(
                self.buckets.len(),
                |i: int|
                    if elapsed_ns <= bucket_bounds()[i] {
                        saturated_u64(self.buckets[i] + 1)
                    } else {
                        self.buckets[i]
                    },
            ),
            sum_ns: saturated_u64(self.sum_ns + saturated_u64(elapsed_ns)),
            count: saturated_u64(self.count + 1),
        }
    }

    /// A bucket holds no more than the next, and none more than all requests.
    pub open spec fn cumulative(self) -> bool {
        &&& self.valid()
        &&& forall|i: int, j: int|
            0 <= i <= j < self.buckets.len() ==> #[trigger] self.buckets[i]
                <= #[trigger] self.buckets[j]
        &&& forall|i: int| 0 <= i < self.buckets.len() ==> #[trigger] self.buckets[i] <= self.count
    }
}

/// Buckets are cumulative, as the text form has them: at first, and behind every request.
pub proof fn lemma_histogram_is_cumulative(h: HistView, elapsed_ns: int)
    requires
        h.cumulative(),
        elapsed_ns >= 0,
    ensures
        HistView::empty().cumulative(),
        h.with_request(elapsed_ns).cumulative(),
{
    let b = bucket_bounds();
    assert forall|i: int, j: int| 0 <= i <= j < 12 implies #[trigger] b[i] <= #[trigger] b[j] by {}
    let w = h.with_request(elapsed_ns);
    assert forall|i: int, j: int| 0 <= i <= j < w.buckets.len() implies #[trigger] w.buckets[i]
        <= #[trigger] w.buckets[j] by {
        assert(b[i] <= b[j]);
        assert(h.buckets[i] <= h.buckets[j]);
    }
    assert forall|i: int| 0 <= i < w.buckets.len() implies #[trigger] w.buckets[i] <= w.count by {
        assert(h.buckets[i] <= h.count);
    }
}

/// How often a method was called with an outcome.
#[derive(Debug, Clone, PartialEq, Eq)]
pub struct RpcCount {
    pub service: String,
    pub method: String,
    pub code: String,
    pub count: u64,
}

/// The times of a method's requests.
#[derive(Debug, Clone, PartialEq, Eq)]
pub struct RpcTimes {
    pub service: String,
    pub method: String,
    pub hist: RpcDurationHist,
}

/// All requests since the start.
#[derive(Debug, Clone, PartialEq, Eq)]
pub struct RpcMetrics {
    counts: Vec<RpcCount>,
    times: Vec<RpcTimes>,
}

pub open spec fn is_count_of(c: RpcCount, service: Seq<char>, method: Seq<char>, code: Seq<char>) -> bool {
    c.service@ == service && c.method@ == method && c.code@ == code
}

pub open spec fn is_times_of(t: RpcTimes, service: Seq<char>, method: Seq<char>) -> bool {
    t.service@ == service && t.method@ == method
}

/// The outcomes that are counted, in order: service, method and code.
pub open spec fn count_keys(counts: Seq<RpcCount>) -> Seq<(Seq<char>, Seq<char>, Seq<char>)> {
    counts.map_values(|c: RpcCount| (c.service@, c.method@, c.code@))
}

/// The methods that are timed, in order: service and method.
pub open spec fn times_keys(times: Seq<RpcTimes>) -> Seq<(Seq<char>, Seq<char>)> {
    times.map_values(|t: RpcTimes| (t.service@, t.method@))
}

/// The keys with one more behind them, unless it is among them.
pub open spec fn with_key<K>(keys: Seq<K>, key: K) -> Seq<K> {
    if keys.contains(key) {
        keys
    } else {
        keys.push(key)
    }
}

/// How often a method was called with an outcome.
pub open spec fn count_of(
    counts: Seq<RpcCount>,
    service: Seq<char>,
    method: Seq<char>,
    code: Seq<char>,
) -> int
    decreases counts.len(),
{
    if counts.len() == 0 {
        0
    } else if is_count_of(counts.last(), service, method, code) {
        counts.last().count as int
    } else {
        count_of(counts.drop_last(), service, method, code)
    }
}

/// The times of a method's requests; none at first.
pub open spec fn times_of(times: Seq<RpcTimes>, service: Seq<char>, method: Seq<char>) -> HistView
    decreases times.len(),
{
    if times.len() == 0 {
        HistView::empty()
    } else if is_times_of(times.last(), service, method) {
        times.last().hist@
    } else {
        times_of(times.drop_last(), service, method)
    }
}

/// Every outcome is there once.
pub open spec fn distinct_counts(counts: Seq<RpcCount>) -> bool {
    forall|i: int, j: int|
        0 <= i < j < counts.len() ==> !is_count_of(
            #[trigger] counts[i],
            (#[trigger] counts[j]).service@,
            counts[j].method@,
            counts[j].code@,
        )
}

/// Every method is there once, and every histogram has its buckets.
pub open spec fn distinct_times(times: Seq<RpcTimes>) -> bool {
    &&& forall|i: int, j: int|
        0 <= i < j < times.len() ==> !is_times_of(
            #[trigger] times[i],
            (#[trigger] times[j]).service@,
            times[j].method@,
        )
    &&& forall|i: int| 0 <= i < times.len() ==> (#[trigger] times[i]).hist@.valid()
}

impl RpcMetrics {
    /// The counts, in the order in which their outcomes first came.
    pub closed spec fn counted(&self) -> Seq<RpcCount> {
        self.counts@
    }

    /// The times, in the order in which their methods were first called.
    pub closed spec fn timed(&self) -> Seq<RpcTimes> {
        self.times@
    }

    /// Every key is there once, and every histogram has its buckets.
    pub open spec fn well_formed(&self) -> bool {
        &&& distinct_counts(self.counted())
        &&& distinct_times(self.timed())
    }

    pub fn counts(&self) -> (r: &Vec<RpcCount>)
        ensures
            r@ == self.counted(),
    {
        &self.counts
    }

    pub fn times(&self) -> (r: &Vec<RpcTimes>)
        ensures
            r@ == self.timed(),
    {
        &self.times
    }

    pub fn new() -> (r: RpcMetrics)
        ensures
            r.well_formed(),
            r.counted().len() == 0,
            r.timed().len() == 0,
    {
        RpcMetrics { counts: Vec::new(), times: Vec::new() }
    }

    /// Counts a request. The count of one outcome has to stay within 64 bits.
    pub fn record_rpc(&mut self, service: &str, method: &str, code: &str, elapsed_ns: u128)
        requires
            old(self).well_formed(),
            count_of(old(self).counted(), service@, method@, code@) < u64::MAX,
        ensures
            final(self).well_formed(),
            count_keys(final(self).counted()) == with_key(
                count_keys(old(self).counted()),
                (service@, method@, code@),
            ),
            times_keys(final(self).timed()) == with_key(
                times_keys(old(self).timed()),
                (service@, method@),
            ),
            forall|s: Seq<char>, m: Seq<char>, c: Seq<char>| #[trigger]
                count_of(final(self).counted(), s, m, c) == count_of(old(self).counted(), s, m, c)
                    + if s == service@ && m == method@ && c == code@ {
                    1int
                } else {
                    0int
                },
            forall|s: Seq<char>, m: Seq<char>| #[trigger]
                times_of(final(self).timed(), s, m) == if s == service@ && m == method@ {
                    times_of(old(self).timed(), s, m).with_request(elapsed_ns as int)
                } else {
                    times_of(old(self).timed(), s, m)
                },
    {
        self.count_request(service, method, code);
        self.time_request(service, method, elapsed_ns);
    }

    /// The position of an outcome's count, or the number of counts.
    fn find_count(&self, service: &str, method: &str, code: &str) -> (i: usize)
        ensures
            i <= self.counts@.len(),
            i < self.counts@.len() ==> is_count_of(
                self.counts@[i as int],
                service@,
                method@,
                code@,
            ),
            i == self.counts@.len() ==> forall|k: int|
                0 <= k < i ==> !is_count_of(#[trigger] self.counts@[k], service@, method@, code@),
    {
        let mut i: usize = 0;
        while i < self.counts.len()
            invariant
                i <= self.counts@.len(),
                forall|k: int|
                    0 <= k < i ==> !is_count_of(
                        #[trigger] self.counts@[k],
                        service@,
                        method@,
                        code@,
                    ),
            decreases self.counts@.len() - i,
        {
            let c = &self.counts[i];
            if same_text(c.service.as_str(), service) && same_text(c.method.as_str(), method)
                && same_text(c.code.as_str(), code) {
                return i;
            }
            i += 1;
        }
        i
    }

    /// The position of a method's times, or the number of methods.
    fn find_times(&self, service: &str, method: &str) -> (i: usize)
        ensures
            i <= self.times@.len(),
            i < self.times@.len() ==> is_times_of(self.times@[i as int], service@, method@),
            i == self.times@.len() ==> forall|k: int|
                0 <= k < i ==> !is_times_of(#[trigger] self.times@[k], service@, method@),
    {
        let mut i: usize = 0;
        while i < self.times.len()
            invariant
                i <= self.times@.len(),
                forall|k: int|
                    0 <= k < i ==> !is_times_of(#[trigger] self.times@[k], service@, method@),
            decreases self.times@.len() - i,
        {
            let t = &self.times[i];
            if same_text(t.service.as_str(), service) && same_text(t.method.as_str(), method) {
                return i;
            }
            i += 1;
        }
        i
    }

    fn count_request(&mut self, service: &str, method: &str, code: &str)
        requires
            old(self).well_formed(),
            count_of(old(self).counted(), service@, method@, code@) < u64::MAX,
        ensures
            final(self).well_formed(),
            count_keys(final(self).counted()) == with_key(
                count_keys(old(self).counted()),
                (service@, method@, code@),
            ),
            final(self).timed() == old(self).timed(),
            forall|s: Seq<char>, m: Seq<char>, c: Seq<char>| #[trigger]
                count_of(final(self).counted(), s, m, c) == count_of(old(self).counted(), s, m, c)
                    + if s == service@ && m == method@ && c == code@ {
                    1int
                } else {
                    0int
                },
    {
        let ghost before = self.counts@;
        assert(distinct_counts(before));
        let i = self.find_count(service, method, code);
        if i < self.counts.len() {
            proof {
                lemma_count_at(before, i as int);
            }
            let e = &mut self.counts[i];
            e.count = e.count + 1;
            proof {
                let after = self.counts@;
                assert(after =~= before.update(i as int, after[i as int]));
                assert(count_keys(after) =~= count_keys(before));
                assert(count_keys(before)[i as int] == (service@, method@, code@));
                assert forall|s: Seq<char>, m: Seq<char>, c: Seq<char>| #[trigger] count_of(
                    after,
                    s,
                    m,
                    c,
                ) == count_of(before, s, m, c) + (if s == service@ && m == method@ && c == code@ {
                    1int
                } else {
                    0int
                }) by {
                    lemma_count_update(before, after, i as int, s, m, c);
                }
            }
        } else {
            self.counts.push(
                RpcCount {
                    service: service.to_owned(),
                    method: method.to_owned(),
                    code: code.to_owned(),
                    count: 1,
                },
            );
            proof {
                let after = self.counts@;
                assert(after.drop_last() =~= before);
                assert(count_keys(after) =~= count_keys(before).push((service@, method@, code@)));
                assert forall|k: int| 0 <= k < before.len() implies #[trigger] count_keys(before)[k]
                    != (service@, method@, code@) by {
                    assert(!is_count_of(before[k], service@, method@, code@));
                }
                lemma_count_absent(before, service@, method@, code@);
                assert forall|a: int, b: int| 0 <= a < b < after.len() implies !is_count_of(
                    #[trigger] after[a],
                    (#[trigger] after[b]).service@,
                    after[b].method@,
                    after[b].code@,
                ) by {
                    assert(after[a] == before[a]);
                    if b < before.len() {
                        assert(after[b] == before[b]);
                    }
                }
            }
        }
    }

    fn time_request(&mut self, service: &str, method: &str, elapsed_ns: u128)
        requires
            old(self).well_formed(),
        ensures
            final(self).well_formed(),
            times_keys(final(self).timed()) == with_key(
                times_keys(old(self).timed()),
                (service@, method@),
            ),
            final(self).counted() == old(self).counted(),
            forall|s: Seq<char>, m: Seq<char>| #[trigger]
                times_of(final(self).timed(), s, m) == if s == service@ && m == method@ {
                    times_of(old(self).timed(), s, m).with_request(elapsed_ns as int)
                } else {
                    times_of(old(self).timed(), s, m)
                },
    {
        let ghost before = self.times@;
        assert(distinct_times(before));
        let i = self.find_times(service, method);
        if i < self.times.len() {
            let hist = add_request(&self.times[i].hist, elapsed_ns);
            let e = &mut self.times[i];
            e.hist = hist;
            proof {
                let after = self.times@;
                assert(after =~= before.update(i as int, after[i as int]));
                assert(times_keys(after) =~= times_keys(before));
                assert(times_keys(before)[i as int] == (service@, method@));
                lemma_times_at(before, i as int);
                assert forall|s: Seq<char>, m: Seq<char>| #[trigger] times_of(after, s, m) == (if s
                    == service@ && m == method@ {
                    times_of(before, s, m).with_request(elapsed_ns as int)
                } else {
                    times_of(before, s, m)
                }) by {
                    lemma_times_update(before, after, i as int, s, m);
                }
            }
        } else {
            let mut zeros: Vec<u64> = Vec::new();
            let mut k: usize = 0;
            while k < BUCKETS
                invariant
                    k <= BUCKETS,
                    zeros@.len() == k,
                    forall|j: int| 0 <= j < k ==> #[trigger] zeros@[j] == 0,
                decreases BUCKETS - k,
            {
                zeros.push(0);
                k += 1;
            }
            let empty = RpcDurationHist { buckets: zeros, sum_ns: 0, count: 0 };
            proof {
                assert(empty@ =~= HistView::empty());
            }
            let hist = add_request(&empty, elapsed_ns);
            self.times.push(
                RpcTimes { service: service.to_owned(), method: method.to_owned(), hist },
            );
            proof {
                let after = self.times@;
                assert(after.drop_last() =~= before);
                assert(times_keys(after) =~= times_keys(before).push((service@, method@)));
                assert forall|k: int| 0 <= k < before.len() implies #[trigger] times_keys(before)[k]
                    != (service@, method@) by {
                    assert(!is_times_of(before[k], service@, method@));
                }
                lemma_times_absent(before, service@, method@);
                assert forall|a: int, b: int| 0 <= a < b < after.len() implies !is_times_of(
                    #[trigger] after[a],
                    (#[trigger] after[b]).service@,
                    after[b].method@,
                ) by {
                    assert(after[a] == before[a]);
                    if b < before.len() {
                        assert(after[b] == before[b]);
                    }
                }
                assert forall|a: int| 0 <= a < after.len() implies (
                #[trigger] after[a]).hist@.valid() by {
                    if a < before.len() {
                        assert(after[a] == before[a]);
                    }
                }
            }
        }
    }
}

fn add_request(h: &RpcDurationHist, elapsed_ns: u128) -> (r: RpcDurationHist)
    requires
        h@.valid(),
    ensures
        r@ == h@.with_request(elapsed_ns as int),
        r@.valid(),
{
    let mut buckets: Vec<u64> = Vec::new();
    let mut i: usize = 0;
    let ghost want = h@.with_request(elapsed_ns as int).buckets;
    while i < BUCKETS
        invariant
            i <= BUCKETS,
            h@.valid(),
            want == h@.with_request(elapsed_ns as int).buckets,
            buckets@ == want.take(i as int),
        decreases BUCKETS - i,
    {
        let b = h.buckets[i];
        if elapsed_ns <= bucket_bound(i) as u128 {
            buckets.push(b.saturating_add(1));
        } else {
            buckets.push(b);
        }
        proof {
            assert(buckets@ =~= want.take(i + 1));
        }
        i += 1;
    }
    proof {
        assert(want.take(BUCKETS as int) =~= want);
    }
    let ns: u64 = if elapsed_ns > 0xffff_ffff_ffff_ffffu128 {
        0xffff_ffff_ffff_ffffu64
    } else {
        elapsed_ns as u64
    };
    RpcDurationHist {
        buckets,
        sum_ns: h.sum_ns.saturating_add(ns),
        count: h.count.saturating_add(1),
    }
}

proof fn lemma_count_absent(
    counts: Seq<RpcCount>,
    service: Seq<char>,
    method: Seq<char>,
    code: Seq<char>,
)
    requires
        forall|k: int|
            0 <= k < counts.len() ==> !is_count_of(#[trigger] counts[k], service, method, code),
    ensures
        count_of(counts, service, method, code) == 0,
    decreases counts.len(),
{
    if counts.len() > 0 {
        assert(!is_count_of(counts[counts.len() - 1], service, method, code));
        let t = counts.drop_last();
        assert forall|k: int| 0 <= k < t.len() implies !is_count_of(
            #[trigger] t[k],
            service,
            method,
            code,
        ) by {
            assert(t[k] == counts[k]);
        }
        lemma_count_absent(t, service, method, code);
    }
}

proof fn lemma_count_at(counts: Seq<RpcCount>, i: int)
    requires
        0 <= i < counts.len(),
        forall|a: int, b: int|
            0 <= a < b < counts.len() ==> !is_count_of(
                #[trigger] counts[a],
                (#[trigger] counts[b]).service@,
                counts[b].method@,
                counts[b].code@,
            ),
    ensures
        count_of(counts, counts[i].service@, counts[i].method@, counts[i].code@) == counts[i].count,
    decreases counts.len(),
{
    if i < counts.len() - 1 {
        let t = counts.drop_last();
        assert(!is_count_of(
            counts[i],
            counts[counts.len() - 1].service@,
            counts[counts.len() - 1].method@,
            counts[counts.len() - 1].code@,
        ));
        assert forall|a: int, b: int| 0 <= a < b < t.len() implies !is_count_of(
            #[trigger] t[a],
            (#[trigger] t[b]).service@,
            t[b].method@,
            t[b].code@,
        ) by {
            assert(t[a] == counts[a] && t[b] == counts[b]);
        }
        lemma_count_at(t, i);
        assert(t[i] == counts[i]);
    }
}

proof fn lemma_count_update(
    before: Seq<RpcCount>,
    after: Seq<RpcCount>,
    i: int,
    s: Seq<char>,
    m: Seq<char>,
    c: Seq<char>,
)
    requires
        0 <= i < before.len(),
        after == before.update(i, after[i]),
        after[i].service == before[i].service,
        after[i].method == before[i].method,
        after[i].code == before[i].code,
        after[i].count == before[i].count + 1,
        forall|a: int, b: int|
            0 <= a < b < before.len() ==> !is_count_of(
                #[trigger] before[a],
                (#[trigger] before[b]).service@,
                before[b].method@,
                before[b].code@,
            ),
    ensures
        count_of(after, s, m, c) == count_of(before, s, m, c) + (if is_count_of(
            before[i],
            s,
            m,
            c,
        ) {
            1int
        } else {
            0int
        }),
    decreases before.len(),
{
    let n = before.len() - 1;
    if i == n {
        assert(after.drop_last() =~= before.drop_last());
    } else {
        let b = before.drop_last();
        let a = after.drop_last();
        assert(a =~= b.update(i, a[i]));
        assert forall|x: int, y: int| 0 <= x < y < b.len() implies !is_count_of(
            #[trigger] b[x],
            (#[trigger] b[y]).service@,
            b[y].method@,
            b[y].code@,
        ) by {
            assert(b[x] == before[x] && b[y] == before[y]);
        }
        lemma_count_update(b, a, i, s, m, c);
        assert(after.last() == before.last());
        assert(!is_count_of(
            before[i],
            before[n].service@,
            before[n].method@,
            before[n].code@,
        ));
    }
}

proof fn lemma_times_absent(times: Seq<RpcTimes>, service: Seq<char>, method: Seq<char>)
    requires
        forall|k: int| 0 <= k < times.len() ==> !is_times_of(#[trigger] times[k], service, method),
    ensures
        times_of(times, service, method) == HistView::empty(),
    decreases times.len(),
{
    if times.len() > 0 {
        assert(!is_times_of(times[times.len() - 1], service, method));
        let t = times.drop_last();
        assert forall|k: int| 0 <= k < t.len() implies !is_times_of(
            #[trigger] t[k],
            service,
            method,
        ) by {
            assert(t[k] == times[k]);
        }
        lemma_times_absent(t, service, method);
    }
}

proof fn lemma_times_at(times: Seq<RpcTimes>, i: int)
    requires
        0 <= i < times.len(),
        forall|a: int, b: int|
            0 <= a < b < times.len() ==> !is_times_of(
                #[trigger] times[a],
                (#[trigger] times[b]).service@,
                times[b].method@,
            ),
    ensures
        times_of(times, times[i].service@, times[i].method@) == times[i].hist@,
    decreases times.len(),
{
    if i < times.len() - 1 {
        let t = times.drop_last();
        assert(!is_times_of(
            times[i],
            times[times.len() - 1].service@,
            times[times.len() - 1].method@,
        ));
        assert forall|a: int, b: int| 0 <= a < b < t.len() implies !is_times_of(
            #[trigger] t[a],
            (#[trigger] t[b]).service@,
            t[b].method@,
        ) by {
            assert(t[a] == times[a] && t[b] == times[b]);
        }
        lemma_times_at(t, i);
        assert(t[i] == times[i]);
    }
}

proof fn lemma_times_update(
    before: Seq<RpcTimes>,
    after: Seq<RpcTimes>,
    i: int,
    s: Seq<char>,
    m: Seq<char>,
)
    requires
        0 <= i < before.len(),
        after == before.update(i, after[i]),
        after[i].service == before[i].service,
        after[i].method == before[i].method,
        forall|a: int, b: int|
            0 <= a < b < before.len() ==> !is_times_of(
                #[trigger] before[a],
                (#[trigger] before[b]).service@,
                before[b].method@,
            ),
    ensures
        times_of(after, s, m) == (if is_times_of(before[i], s, m) {
            after[i].hist@
        } else {
            times_of(before, s, m)
        }),
    decreases before.len(),
{
    let n = before.len() - 1;
    if i == n {
        assert(after.drop_last() =~= before.drop_last());
    } else {
        let b = before.drop_last();
        let a = after.drop_last();
        assert(a =~= b.update(i, a[i]));
        assert forall|x: int, y: int| 0 <= x < y < b.len() implies !is_times_of(
            #[trigger] b[x],
            (#[trigger] b[y]).service@,
            b[y].method@,
        ) by {
            assert(b[x] == before[x] && b[y] == before[y]);
        }
        lemma_times_update(b, a, i, s, m);
        assert(after.last() == before.last());
        assert(!is_times_of(before[i], before[n].service@, before[n].method@));
    }
}

/// The service and the method of a request, with a slash between them, are its path; what has no
/// such two parts is unknown.
pub proof fn lemma_service_and_method_are_path(path: Seq<char>)
    ensures
        ({
            let (service, method) = grpc_path(path);
            let t = strip_slashes(path);
            ||| {
                &&& t == service + seq!['/'] + method
                &&& service.len() > 0 && method.len() > 0
                &&& forall|i: int| 0 <= i < method.len() ==> #[trigger] method[i] != '/'
            }
            ||| {
                &&& service == "unknown"@ && method == "unknown"@
                &&& (forall|i: int| 0 < i < t.len() ==> #[trigger] t[i] != '/') || t.last() == '/'
            }
        }),
{
    let t = strip_slashes(path);
    let k = last_slash(t);
    lemma_last_slash(t);
    if 0 < k < t.len() - 1 {
        assert(t =~= t.take(k) + seq!['/'] + t.skip(k + 1));
    }
}

/// A code is told as it was answered where it is one of the seventeen; no code means that all went
/// well.
pub proof fn lemma_codes_of_answers(n: nat, h: Seq<char>)
    ensures
        grpc_code_of(None) == "0"@,
        n <= 16 ==> grpc_code_of(Some(decimal(n))) == decimal(n),
        n > 16 ==> grpc_code_of(Some(decimal(n))) == "unknown"@,
        (forall|m: nat| h != #[trigger] decimal(m)) ==> grpc_code_of(Some(h)) == "unknown"@,
{
    if n > 16 && is_grpc_code(decimal(n)) {
        let m = choose|m: nat| m <= 16 && decimal(n) == #[trigger] decimal(m);
        lemma_decimal_value(n);
        lemma_decimal_value(m);
    }
}

/// How a request proves who it is from is told by the word in front, in whatever letters.
pub proof fn lemma_kinds_of_auth(h: Seq<char>)
    ensures
        auth_kind_of(None) == "none"@,
        has_prefix(ascii_lowercase(h), "bearer "@) ==> auth_kind_of(Some(h)) == "bearer"@,
        has_prefix(ascii_lowercase(h), "basic "@) ==> auth_kind_of(Some(h)) == "basic"@,
        !has_prefix(ascii_lowercase(h), "bearer "@) && !has_prefix(ascii_lowercase(h), "basic "@)
            ==> auth_kind_of(Some(h)) == "other"@,
{
    reveal_strlit("bearer ");
    reveal_strlit("basic ");
    let l = ascii_lowercase(h);
    if has_prefix(l, "bearer "@) && has_prefix(l, "basic "@) {
        assert("bearer "@[1] == 'e' && "basic "@[1] == 'a');
        assert(l.take("bearer "@.len() as int)[1] == l[1]);
        assert(l.take("basic "@.len() as int)[1] == l[1]);
    }
}

/// The bounds of the buckets, in nanoseconds, are the seconds that their labels tell.
pub proof fn lemma_buckets_are_labelled(i: int)
    requires
        0 <= i < 12,
    ensures
        BUCKETS == 12,
        bucket_bounds().len() == 12,
        bucket_bounds()[i] == 1_000_000 <==> bucket_label_of(i) == "0.001"@,
        bucket_bounds()[i] == 5_000_000 <==> bucket_label_of(i) == "0.005"@,
        bucket_bounds()[i] == 10_000_000 <==> bucket_label_of(i) == "0.01"@,
        bucket_bounds()[i] == 25_000_000 <==> bucket_label_of(i) == "0.025"@,
        bucket_bounds()[i] == 50_000_000 <==> bucket_label_of(i) == "0.05"@,
        bucket_bounds()[i] == 100_000_000 <==> bucket_label_of(i) == "0.1"@,
        bucket_bounds()[i] == 250_000_000 <==> bucket_label_of(i) == "0.25"@,
        bucket_bounds()[i] == 500_000_000 <==> bucket_label_of(i) == "0.5"@,
        bucket_bounds()[i] == 1_000_000_000 <==> bucket_label_of(i) == "1"@,
        bucket_bounds()[i] == 2_500_000_000 <==> bucket_label_of(i) == "2.5"@,
        bucket_bounds()[i] == 5_000_000_000 <==> bucket_label_of(i) == "5"@,
        bucket_bounds()[i] == 10_000_000_000 <==> bucket_label_of(i) == "10"@,
        i > 0 ==> bucket_bounds()[i - 1] < bucket_bounds()[i],
{
    reveal_strlit("0.001");
    reveal_strlit("0.005");
    reveal_strlit("0.01");
    reveal_strlit("0.025");
    reveal_strlit("0.05");
    reveal_strlit("0.1");
    reveal_strlit("0.25");
    reveal_strlit("0.5");
    reveal_strlit("1");
    reveal_strlit("2.5");
    reveal_strlit("5");
    reveal_strlit("10");
    assert("0.001"@.len() == 5 && "0.001"@[3] == '0' && "0.001"@[4] == '1');
    assert("0.005"@.len() == 5 && "0.005"@[3] == '0' && "0.005"@[4] == '5');
    assert("0.01"@.len() == 4 && "0.01"@[2] == '0' && "0.01"@[3] == '1');
    assert("0.025"@.len() == 5 && "0.025"@[3] == '2');
    assert("0.05"@.len() == 4 && "0.05"@[2] == '0' && "0.05"@[3] == '5');
    assert("0.1"@.len() == 3 && "0.1"@[0] == '0' && "0.1"@[2] == '1');
    assert("0.25"@.len() == 4 && "0.25"@[2] == '2');
    assert("0.5"@.len() == 3 && "0.5"@[0] == '0' && "0.5"@[2] == '5');
    assert("1"@.len() == 1 && "1"@[0] == '1');
    assert("2.5"@.len() == 3 && "2.5"@[0] == '2');
    assert("5"@.len() == 1 && "5"@[0] == '5');
    assert("10"@.len() == 2);
}

/// A request counts once, adds its time, and is in each bucket whose bound it does not exceed.
pub proof fn lemma_request_is_in_its_buckets(h: HistView, elapsed_ns: u64, i: int)
    requires
        h.valid(),
        0 <= i < 12,
        h.count < u64::MAX,
        h.buckets[i] < u64::MAX,
    ensures
        ({
            let g = h.with_request(elapsed_ns as int);
            &&& g.count == h.count + 1
            &&& h.sum_ns + elapsed_ns <= u64::MAX ==> g.sum_ns == h.sum_ns + elapsed_ns
            &&& h.sum_ns + elapsed_ns > u64::MAX ==> g.sum_ns == u64::MAX
            &&& elapsed_ns <= bucket_bounds()[i] ==> g.buckets[i] == h.buckets[i] + 1
            &&& elapsed_ns > bucket_bounds()[i] ==> g.buckets[i] == h.buckets[i]
        }),
        HistView::empty().count == 0,
        HistView::empty().sum_ns == 0,
        HistView::empty().buckets[i] == 0,
{
}

/// What is counted under a key is what its row holds, and nothing where it has no row.
pub proof fn lemma_counts_are_of_rows(counts: Seq<RpcCount>, i: int)
    requires
        distinct_counts(counts),
        0 <= i < counts.len(),
    ensures
        count_of(counts, counts[i].service@, counts[i].method@, counts[i].code@) == counts[i].count,
        count_of(Seq::empty(), counts[i].service@, counts[i].method@, counts[i].code@) == 0,
{
    lemma_count_at(counts, i);
}

/// What is timed under a method is what its row holds, and nothing where it has no row.
pub proof fn lemma_times_are_of_rows(times: Seq<RpcTimes>, i: int)
    requires
        distinct_times(times),
        0 <= i < times.len(),
    ensures
        times_of(times, times[i].service@, times[i].method@) == times[i].hist@,
        times_of(Seq::empty(), times[i].service@, times[i].method@).count == 0,
{
    lemma_times_at(times, i);
}

/// Rows with the same key are one row.
pub proof fn lemma_rows_are_distinct(
    counts: Seq<RpcCount>,
    times: Seq<RpcTimes>,
    i: int,
    j: int,
)
    requires
        distinct_counts(counts),
        distinct_times(times),
        0 <= i < j,
    ensures
        j < counts.len() ==> counts[i].service@ != counts[j].service@ || counts[i].method@
            != counts[j].method@ || counts[i].code@ != counts[j].code@,
        j < times.len() ==> times[i].service@ != times[j].service@ || times[i].method@
            != times[j].method@,
        j < times.len() ==> times[j].hist@.buckets.len() == 12,
{
}

/// A request keeps the id that it came with, and one that was not answered has no code.
pub proof fn lemma_requests_are_told_apart(
    header: &str,
    fresh: String,
    id: String,
    none: String,
    code: String,
    lost: String,
)
    requires
        call_ensures(request_id, (Some(header), fresh), id),
        call_ensures(request_id, (None, fresh), none),
        call_ensures(rpc_code, (true, None), code),
        call_ensures(rpc_code, (false, Some(header)), lost),
    ensures
        trim(header@).len() > 0 ==> id@ == trim(header@),
        trim(header@).len() == 0 ==> id@ == fresh@,
        none@ == fresh@,
        code@ == "0"@,
        lost@ == "transport"@,
{
}

} // verus!

//! The text form of the server's metrics, and the answers of the endpoint that shows them.
use crate::auth::AuthCounters;
use crate::credits::BillingCounters;
use crate::telemetry::{bucket_label, bucket_label_of, RpcCount, RpcMetrics, RpcTimes, BUCKETS};
use crate::text::{
    decimal, find_char, first_index, from_chars, push_decimal, same_text, split_words, texts,
    to_chars, words,
};
use crate::utf8_text::byte_len;
use vstd::prelude::*;
use vstd::string::StringExecFns;
use vstd::utf8::encode_utf8;

verus! {

// ---------------------------------------------------------------------------
// Pieces of text
// ---------------------------------------------------------------------------

/// A label's value, with a backslash in front of every backslash and quotation mark.
pub open spec fn escaped(s: Seq<char>) -> Seq<char>
    decreases s.len(),
{
    if s.len() == 0 {
        Seq::empty()
    } else {
        let before = escaped(s.drop_last());
        if s.last() == '\\' || s.last() == '"' {
            before.push('\\').push(s.last())
        } else {
            before.push(s.last())
        }
    }
}

pub fn prometheus_escape_label(s: &str) -> (r: String)
    ensures
        r@ == escaped(s@),
{
    let v = to_chars(s);
    let mut r = String::new();
    let mut i: usize = 0;
    proof {
        assert(v@.take(0) =~= Seq::empty());
    }
    while i < v.len()
        invariant
            v@ == s@,
            i <= v@.len(),
            r@ == escaped(v@.take(i as int)),
        decreases v@.len() - i,
    {
        let c = v[i];
        proof {
            assert(v@.take(i + 1).drop_last() =~= v@.take(i as int));
        }
        if c == '\\' || c == '"' {
            r.push('\\');
        }
        r.push(c);
        i += 1;
    }
    proof {
        assert(v@.take(v@.len() as int) =~= v@);
    }
    r
}

/// A label's value as a reader takes it in: a backslash stands for the character behind it.
pub open spec fn unescaped(s: Seq<char>) -> Seq<char>
    decreases s.len(),
{
    if s.len() == 0 {
        Seq::empty()
    } else if s[0] == '\\' && s.len() >= 2 {
        seq![s[1]] + unescaped(s.skip(2))
    } else {
        seq![s[0]] + unescaped(s.skip(1))
    }
}

proof fn lemma_unescape_front(s: Seq<char>, rest: Seq<char>)
    ensures
        unescaped(escaped(s) + rest) == s + unescaped(rest),
    decreases s.len(),
{
    if s.len() == 0 {
        assert(escaped(s) + rest =~= rest);
        assert(s + unescaped(rest) =~= unescaped(rest));
    } else {
        let t = s.drop_last();
        let c = s.last();
        let e = if c == '\\' || c == '"' {
            seq!['\\', c]
        } else {
            seq![c]
        };
        let tail = e + rest;
        assert(escaped(s) + rest =~= escaped(t) + tail);
        lemma_unescape_front(t, tail);
        if c == '\\' || c == '"' {
            assert(tail.skip(2) =~= rest);
        } else {
            assert(tail.skip(1) =~= rest);
        }
        assert(unescaped(tail) =~= seq![c] + unescaped(rest));
        assert(t + (seq![c] + unescaped(rest)) =~= s + unescaped(rest));
    }
}

/// Nothing of a label is lost in escaping it: a reader takes in what was written.
pub proof fn lemma_label_reads_back(s: Seq<char>)
    ensures
        unescaped(escaped(s)) == s,
{
    lemma_unescape_front(s, Seq::empty());
    assert(escaped(s) + Seq::<char>::empty() =~= escaped(s));
    assert(s + unescaped(Seq::empty()) =~= s);
}

/// The two lines that introduce a metric.
pub open spec fn metric_head(name: Seq<char>, help: Seq<char>, kind: Seq<char>) -> Seq<char> {
    "# HELP "@ + name + " "@ + help + "\n# TYPE "@ + name + " "@ + kind + "\n"@
}

fn head_text(name: &str, help: &str, kind: &str) -> (r: String)
    ensures
        r@ == metric_head(name@, help@, kind@),
{
    let mut r = "# HELP ".to_owned();
    r.append(name);
    r.append(" ");
    r.append(help);
    r.append("\n# TYPE ");
    r.append(name);
    r.append(" ");
    r.append(kind);
    r.append("\n");
    r
}

/// A metric with a single value.
pub open spec fn metric(name: Seq<char>, help: Seq<char>, kind: Seq<char>, value: Seq<char>) -> Seq<
    char,
> {
    metric_head(name, help, kind) + name + " "@ + value + "\n"@
}

fn push_metric(out: &mut String, name: &str, help: &str, kind: &str, value: &str)
    ensures
        final(out)@ == old(out)@ + metric(name@, help@, kind@, value@),
{
    let mut r = head_text(name, help, kind);
    r.append(name);
    r.append(" ");
    r.append(value);
    r.append("\n");
    out.append(r.as_str());
}

fn push_counter(out: &mut String, name: &str, help: &str, kind: &str, value: u64)
    ensures
        final(out)@ == old(out)@ + metric(name@, help@, kind@, decimal(value as nat)),
{
    let v = crate::text::decimal_text(value);
    push_metric(out, name, help, kind, v.as_str());
}

/// The labels of a method.
pub open spec fn method_labels(service: Seq<char>, method: Seq<char>) -> Seq<char> {
    "{service=\""@ + escaped(service) + "\",method=\""@ + escaped(method) + "\""@
}

fn labels_text(service: &str, method: &str) -> (r: String)
    ensures
        r@ == method_labels(service@, method@),
{
    let mut r = "{service=\"".to_owned();
    r.append(prometheus_escape_label(service).as_str());
    r.append("\",method=\"");
    r.append(prometheus_escape_label(method).as_str());
    r.append("\"");
    r
}

/// The line of an outcome.
pub open spec fn count_line(c: RpcCount) -> Seq<char> {
    "scryd_rpc_requests_total"@ + method_labels(c.service@, c.method@) + ",code=\""@ + escaped(
        c.code@,
    ) + "\"} "@ + decimal(c.count as nat) + "\n"@
}

pub open spec fn count_lines_of(counts: Seq<RpcCount>) -> Seq<char>
    decreases counts.len(),
{
    if counts.len() == 0 {
        Seq::empty()
    } else {
        count_lines_of(counts.drop_last()) + count_line(counts.last())
    }
}

fn push_counts(out: &mut String, counts: &Vec<RpcCount>)
    ensures
        final(out)@ == old(out)@ + count_lines_of(counts@),
{
    let mut all = String::new();
    let mut i: usize = 0;
    proof {
        assert(counts@.take(0) =~= Seq::empty());
    }
    while i < counts.len()
        invariant
            i <= counts@.len(),
            all@ == count_lines_of(counts@.take(i as int)),
        decreases counts@.len() - i,
    {
        let c = &counts[i];
        let mut line = "scryd_rpc_requests_total".to_owned();
        line.append(labels_text(c.service.as_str(), c.method.as_str()).as_str());
        line.append(",code=\"");
        line.append(prometheus_escape_label(c.code.as_str()).as_str());
        line.append("\"} ");
        push_decimal(&mut line, c.count);
        line.append("\n");
        proof {
            assert(counts@.take(i + 1).drop_last() =~= counts@.take(i as int));
        }
        all.append(line.as_str());
        i += 1;
    }
    proof {
        assert(counts@.take(counts@.len() as int) =~= counts@);
    }
    out.append(all.as_str());
}

/// The line of a bucket.
pub open spec fn bucket_line(t: RpcTimes, i: int) -> Seq<char> {
    "scryd_rpc_duration_seconds_bucket"@ + method_labels(t.service@, t.method@) + ",le=\""@
        + bucket_label_of(i) + "\"} "@ + decimal(t.hist.buckets@[i] as nat) + "\n"@
}

pub open spec fn bucket_lines(t: RpcTimes, n: int) -> Seq<char>
    decreases n,
{
    if n <= 0 {
        Seq::empty()
    } else {
        bucket_lines(t, n - 1) + bucket_line(t, n - 1)
    }
}

/// The lines of a histogram; `sum` is the time of all requests in seconds, as text.
pub open spec fn times_lines(t: RpcTimes, sum: Seq<char>) -> Seq<char> {
    let labels = method_labels(t.service@, t.method@);
    let count = decimal(t.hist.count as nat);
    bucket_lines(t, BUCKETS as int) + "scryd_rpc_duration_seconds_bucket"@ + labels
        + ",le=\"+Inf\"} "@ + count + "\n"@ + "scryd_rpc_duration_seconds_sum"@ + labels + "} "@
        + sum + "\n"@ + "scryd_rpc_duration_seconds_count"@ + labels + "} "@ + count + "\n"@
}

fn times_text(t: &RpcTimes, sum: &str) -> (r: String)
    requires
        t.hist@.valid(),
    ensures
        r@ == times_lines(*t, sum@),
{
    let mut r = String::new();
    let mut i: usize = 0;
    let labels = labels_text(t.service.as_str(), t.method.as_str());
    while i < BUCKETS
        invariant
            i <= BUCKETS,
            t.hist@.valid(),
            labels@ == method_labels(t.service@, t.method@),
            r@ == bucket_lines(*t, i as int),
        decreases BUCKETS - i,
    {
        let mut line = "scryd_rpc_duration_seconds_bucket".to_owned();
        line.append(labels.as_str());
        line.append(",le=\"");
        line.append(bucket_label(i));
        line.append("\"} ");
        push_decimal(&mut line, t.hist.buckets[i]);
        line.append("\n");
        r.append(line.as_str());
        i += 1;
    }
    r.append("scryd_rpc_duration_seconds_bucket");
    r.append(labels.as_str());
    r.append(",le=\"+Inf\"} ");
    push_decimal(&mut r, t.hist.count);
    r.append("\n");
    r.append("scryd_rpc_duration_seconds_sum");
    r.append(labels.as_str());
    r.append("} ");
    r.append(sum);
    r.append("\n");
    r.append("scryd_rpc_duration_seconds_count");
    r.append(labels.as_str());
    r.append("} ");
    push_decimal(&mut r, t.hist.count);
    r.append("\n");
    r
}

pub open spec fn all_times_lines(times: Seq<RpcTimes>, sums: Seq<Seq<char>>) -> Seq<char>
    decreases times.len(),
{
    if times.len() == 0 {
        Seq::empty()
    } else {
        all_times_lines(times.drop_last(), sums.drop_last()) + times_lines(
            times.last(),
            sums.last(),
        )
    }
}

fn push_times(out: &mut String, times: &Vec<RpcTimes>, sums: &Vec<String>)
    requires
        times@.len() == sums@.len(),
        forall|i: int| 0 <= i < times@.len() ==> (#[trigger] times@[i]).hist@.valid(),
    ensures
        final(out)@ == old(out)@ + all_times_lines(times@, texts(sums@)),
{
    let mut all = String::new();
    let mut i: usize = 0;
    let ghost s = texts(sums@);
    proof {
        assert(times@.take(0) =~= Seq::empty());
    }
    while i < times.len()
        invariant
            s == texts(sums@),
            times@.len() == sums@.len(),
            i <= times@.len(),
            forall|k: int| 0 <= k < times@.len() ==> (#[trigger] times@[k]).hist@.valid(),
            all@ == all_times_lines(times@.take(i as int), s.take(i as int)),
        decreases times@.len() - i,
    {
        let text = times_text(&times[i], sums[i].as_str());
        proof {
            assert(times@.take(i + 1).drop_last() =~= times@.take(i as int));
            assert(s.take(i + 1).drop_last() =~= s.take(i as int));
            assert(s.take(i + 1).last() == sums@[i as int]@);
        }
        all.append(text.as_str());
        i += 1;
    }
    proof {
        assert(times@.take(times@.len() as int) =~= times@);
        assert(s.take(s.len() as int) =~= s);
    }
    out.append(all.as_str());
}

// ---------------------------------------------------------------------------
// All metrics
// ---------------------------------------------------------------------------

/// What is shown of the queues of indexing jobs. The averages are in milliseconds, as text.
#[derive(Debug, Clone)]
pub struct QueueMetrics {
    pub queued_jobs: u64,
    pub running_jobs: u64,
    pub completed_jobs: u64,
    pub failed_jobs: u64,
    pub avg_running_latency_ms: Option<String>,
    pub avg_completion_latency_ms: Option<String>,
}

/// What is shown of the server. Times in seconds are given as text.
#[derive(Debug, Clone)]
pub struct ServerMetrics {
    pub layout: String,
    pub open_stores: u64,
    pub uptime_seconds: String,
    pub started_unix_seconds: u64,
    pub auth: AuthCounters,
    pub retention_runs_total: u64,
    pub retention_deleted_total: u64,
    pub retention_last_deleted: u64,
    pub metrics_snapshot_runs_total: u64,
    pub billing: BillingCounters,
    pub rpc: RpcMetrics,
    /// The time of all requests of each method, in the order of `rpc.times()`.
    pub rpc_sum_seconds: Vec<String>,
    /// None where the queues could not be read.
    pub queues: Option<QueueMetrics>,
}

pub open spec fn latency_line(name: Seq<char>, value: Option<String>) -> Seq<char> {
    match value {
        Some(v) => name + " "@ + v@ + "\n"@,
        None => Seq::empty(),
    }
}

pub open spec fn queue_text(q: QueueMetrics) -> Seq<char> {
    Seq::<char>::empty() + metric(
        "scryd_indexing_jobs_queued"@,
        "Queued indexing jobs."@,
        "gauge"@,
        decimal(q.queued_jobs as nat),
    ) + metric(
        "scryd_indexing_jobs_running"@,
        "Running indexing jobs."@,
        "gauge"@,
        decimal(q.running_jobs as nat),
    ) + metric(
        "scryd_indexing_jobs_completed"@,
        "Completed indexing jobs."@,
        "counter"@,
        decimal(q.completed_jobs as nat),
    ) + metric(
        "scryd_indexing_jobs_failed"@,
        "Failed indexing jobs."@,
        "counter"@,
        decimal(q.failed_jobs as nat),
    ) + latency_line("scryd_indexing_avg_running_latency_ms"@, q.avg_running_latency_ms)
        + latency_line("scryd_indexing_avg_completion_latency_ms"@, q.avg_completion_latency_ms)
}

/// The metrics of the server in the text format of Prometheus.
pub open spec fn metrics_text_of(m: ServerMetrics) -> Seq<char> {
    Seq::<char>::empty() + (metric_head(
        "scry_index_open_total"@,
        "Open index stores by layout."@,
        "gauge"@,
    ) + "scry_index_open_total{layout=\""@ + m.layout@ + "\"} "@ + decimal(m.open_stores as nat)
        + "\n"@) + metric(
        "scryd_uptime_seconds"@,
        "Process uptime in seconds."@,
        "gauge"@,
        m.uptime_seconds@,
    ) + metric(
        "scryd_started_unix_seconds"@,
        "Process start timestamp in unix seconds."@,
        "gauge"@,
        decimal(m.started_unix_seconds as nat),
    ) + metric(
        "scryd_auth_success_total"@,
        "Successful auth checks."@,
        "counter"@,
        decimal(m.auth.success_total as nat),
    ) + metric(
        "scryd_auth_unauthenticated_total"@,
        "Unauthenticated auth failures."@,
        "counter"@,
        decimal(m.auth.unauthenticated_total as nat),
    ) + metric(
        "scryd_auth_denied_total"@,
        "Permission-denied auth failures."@,
        "counter"@,
        decimal(m.auth.denied_total as nat),
    ) + metric(
        "scryd_retention_runs_total"@,
        "Events retention sweep runs."@,
        "counter"@,
        decimal(m.retention_runs_total as nat),
    ) + metric(
        "scryd_retention_deleted_total"@,
        "Events deleted by retention sweeps."@,
        "counter"@,
        decimal(m.retention_deleted_total as nat),
    ) + metric(
        "scryd_retention_last_deleted"@,
        "Last retention sweep deleted events."@,
        "gauge"@,
        decimal(m.retention_last_deleted as nat),
    ) + metric(
        "scryd_metrics_snapshot_runs_total"@,
        "Indexing snapshot sampling runs."@,
        "counter"@,
        decimal(m.metrics_snapshot_runs_total as nat),
    ) + metric(
        "scryd_embedding_billed_credits_total"@,
        "Credits billed for embedding calls (ceil of token-based charge)."@,
        "counter"@,
        decimal(m.billing.credits_total as nat),
    ) + metric(
        "scryd_embedding_billed_tokens_total"@,
        "Tokens used for embedding credit settlement (upstream usage or estimate)."@,
        "counter"@,
        decimal(m.billing.tokens_total as nat),
    ) + metric(
        "scryd_embedding_settlement_upstream_usage_total"@,
        "Embedding calls settled using provider usage."@,
        "counter"@,
        decimal(m.billing.upstream_usage_total as nat),
    ) + metric(
        "scryd_embedding_settlement_estimated_total"@,
        "Embedding calls settled using local token estimates."@,
        "counter"@,
        decimal(m.billing.estimated_total as nat),
    ) + metric_head(
        "scryd_rpc_requests_total"@,
        "gRPC unary/stream responses by service, method, and grpc-status code."@,
        "counter"@,
    ) + count_lines_of(m.rpc.counted()) + metric_head(
        "scryd_rpc_duration_seconds"@,
        "gRPC handler wall time in seconds."@,
        "histogram"@,
    ) + all_times_lines(m.rpc.timed(), texts(m.rpc_sum_seconds@)) + (match m.queues {
        Some(q) => queue_text(q),
        None => Seq::empty(),
    })
}

fn push_latency(out: &mut String, name: &str, value: &Option<String>)
    ensures
        final(out)@ == old(out)@ + latency_line(name@, *value),
{
    match value {
        Some(v) => {
            let mut line = name.to_owned();
            line.append(" ");
            line.append(v.as_str());
            line.append("\n");
            out.append(line.as_str());
        },
        None => {
            proof {
                assert(out@ + Seq::empty() =~= out@);
            }
        },
    }
}

fn queue_metrics_text(q: &QueueMetrics) -> (r: String)
    ensures
        r@ == queue_text(*q),
{
    let mut r = String::new();
    push_counter(
        &mut r,
        "scryd_indexing_jobs_queued",
        "Queued indexing jobs.",
        "gauge",
        q.queued_jobs,
    );
    push_counter(
        &mut r,
        "scryd_indexing_jobs_running",
        "Running indexing jobs.",
        "gauge",
        q.running_jobs,
    );
    push_counter(
        &mut r,
        "scryd_indexing_jobs_completed",
        "Completed indexing jobs.",
        "counter",
        q.completed_jobs,
    );
    push_counter(
        &mut r,
        "scryd_indexing_jobs_failed",
        "Failed indexing jobs.",
        "counter",
        q.failed_jobs,
    );
    push_latency(&mut r, "scryd_indexing_avg_running_latency_ms", &q.avg_running_latency_ms);
    push_latency(&mut r, "scryd_indexing_avg_completion_latency_ms", &q.avg_completion_latency_ms);
    r
}

/// Writes the metrics of the server.
pub fn build_metrics_text(m: &ServerMetrics) -> (r: String)
    requires
        m.rpc.well_formed(),
        m.rpc_sum_seconds@.len() == m.rpc.timed().len(),
    ensures
        r@ == metrics_text_of(*m),
{
    let mut out = String::new();
    let mut stores = head_text("scry_index_open_total", "Open index stores by layout.", "gauge");
    stores.append("scry_index_open_total{layout=\"");
    stores.append(m.layout.as_str());
    stores.append("\"} ");
    push_decimal(&mut stores, m.open_stores);
    stores.append("\n");
    out.append(stores.as_str());
    push_metric(
        &mut out,
        "scryd_uptime_seconds",
        "Process uptime in seconds.",
        "gauge",
        m.uptime_seconds.as_str(),
    );
    push_counter(
        &mut out,
        "scryd_started_unix_seconds",
        "Process start timestamp in unix seconds.",
        "gauge",
        m.started_unix_seconds,
    );
    push_counter(
        &mut out,
        "scryd_auth_success_total",
        "Successful auth checks.",
        "counter",
        m.auth.success_total,
    );
    push_counter(
        &mut out,
        "scryd_auth_unauthenticated_total",
        "Unauthenticated auth failures.",
        "counter",
        m.auth.unauthenticated_total,
    );
    push_counter(
        &mut out,
        "scryd_auth_denied_total",
        "Permission-denied auth failures.",
        "counter",
        m.auth.denied_total,
    );
    push_counter(
        &mut out,
        "scryd_retention_runs_total",
        "Events retention sweep runs.",
        "counter",
        m.retention_runs_total,
    );
    push_counter(
        &mut out,
        "scryd_retention_deleted_total",
        "Events deleted by retention sweeps.",
        "counter",
        m.retention_deleted_total,
    );
    push_counter(
        &mut out,
        "scryd_retention_last_deleted",
        "Last retention sweep deleted events.",
        "gauge",
        m.retention_last_deleted,
    );
    push_counter(
        &mut out,
        "scryd_metrics_snapshot_runs_total",
        "Indexing snapshot sampling runs.",
        "counter",
        m.metrics_snapshot_runs_total,
    );
    push_counter(
        &mut out,
        "scryd_embedding_billed_credits_total",
        "Credits billed for embedding calls (ceil of token-based charge).",
        "counter",
        m.billing.credits_total,
    );
    push_counter(
        &mut out,
        "scryd_embedding_billed_tokens_total",
        "Tokens used for embedding credit settlement (upstream usage or estimate).",
        "counter",
        m.billing.tokens_total,
    );
    push_counter(
        &mut out,
        "scryd_embedding_settlement_upstream_usage_total",
        "Embedding calls settled using provider usage.",
        "counter",
        m.billing.upstream_usage_total,
    );
    push_counter(
        &mut out,
        "scryd_embedding_settlement_estimated_total",
        "Embedding calls settled using local token estimates.",
        "counter",
        m.billing.estimated_total,
    );
    out.append(
        head_text(
            "scryd_rpc_requests_total",
            "gRPC unary/stream responses by service, method, and grpc-status code.",
            "counter",
        ).as_str(),
    );
    push_counts(&mut out, m.rpc.counts());
    out.append(
        head_text(
            "scryd_rpc_duration_seconds",
            "gRPC handler wall time in seconds.",
            "histogram",
        ).as_str(),
    );
    push_times(&mut out, m.rpc.times(), &m.rpc_sum_seconds);
    match &m.queues {
        Some(q) => {
            out.append(queue_metrics_text(q).as_str());
        },
        None => {
            proof {
                assert(out@ + Seq::empty() =~= out@);
            }
        },
    }
    out
}

// ---------------------------------------------------------------------------
// The endpoint
// ---------------------------------------------------------------------------

/// The path that a request for a page asks for: the second word of its first line.
pub open spec fn requested_path(request: Seq<char>) -> Seq<char> {
    let w = words(request.take(first_index(request, '\n')));
    if w.len() >= 2 {
        w[1]
    } else {
        "/"@
    }
}

pub fn request_path(request: &str) -> (r: String)
    ensures
        r@ == requested_path(request@),
{
    let v = to_chars(request);
    let k = find_char(&v, '\n');
    let line = from_chars(&v, 0, k);
    proof {
        assert(v@.subrange(0, k as int) =~= v@.take(k as int));
    }
    let w = split_words(line.as_str());
    proof {
        assert(texts(w@).len() == w@.len());
    }
    if w.len() >= 2 {
        proof {
            assert(texts(w@)[1] == w@[1]@);
        }
        w[1].clone()
    } else {
        "/".to_owned()
    }
}

/// The answer of the endpoint: the metrics at their path, and nothing anywhere else.
pub open spec fn page_answer(path: Seq<char>, body: Seq<char>) -> Seq<char> {
    if path == "/metrics"@ {
        "HTTP/1.1 200 OK\r\nContent-Type: text/plain; version=0.0.4\r\nContent-Length: "@
            + decimal(encode_utf8(body).len()) + "\r\nConnection: close\r\n\r\n"@ + body
    } else {
        "HTTP/1.1 404 Not Found\r\nContent-Length: 0\r\nConnection: close\r\n\r\n"@
    }
}

pub fn metrics_answer(path: &str, body: &str) -> (r: String)
    ensures
        r@ == page_answer(path@, body@),
{
    if same_text(path, "/metrics") {
        let mut r =
            "HTTP/1.1 200 OK\r\nContent-Type: text/plain; version=0.0.4\r\nContent-Length: ".to_owned();
        push_decimal(&mut r, byte_len(body) as u64);
        r.append("\r\nConnection: close\r\n\r\n");
        r.append(body);
        r
    } else {
        "HTTP/1.1 404 Not Found\r\nContent-Length: 0\r\nConnection: close\r\n\r\n".to_owned()
    }
}

// ---------------------------------------------------------------------------
// What the page tells
// ---------------------------------------------------------------------------

/// A text holds another, in one piece.
pub open spec fn stands_in(text: Seq<char>, part: Seq<char>) -> bool {
    exists|i: int| 0 <= i <= text.len() - part.len() && #[trigger] text.subrange(i, i + part.len())
        == part
}

proof fn lemma_more_may_follow(a: Seq<char>, b: Seq<char>)
    ensures
        forall|part: Seq<char>| #[trigger] stands_in(a, part) ==> stands_in(a + b, part),
{
    assert forall|part: Seq<char>| #[trigger] stands_in(a, part) implies stands_in(a + b, part) by {
        let i = choose|i: int|
            0 <= i <= a.len() - part.len() && #[trigger] a.subrange(i, i + part.len()) == part;
        assert((a + b).subrange(i, i + part.len()) =~= a.subrange(i, i + part.len()));
    }
}

proof fn lemma_part_stands_in(a: Seq<char>, b: Seq<char>)
    ensures
        stands_in(a + b, b),
{
    assert((a + b).subrange(a.len() as int, a.len() as int + b.len()) =~= b);
}

proof fn lemma_metric_stands_in(
    before: Seq<char>,
    name: Seq<char>,
    help: Seq<char>,
    kind: Seq<char>,
    value: Seq<char>,
)
    ensures
        stands_in(before + metric(name, help, kind, value), name + " "@ + value + "\n"@),
        forall|part: Seq<char>| #[trigger]
            stands_in(before, part) ==> stands_in(before + metric(name, help, kind, value), part),
{
    lemma_more_may_follow(before, metric(name, help, kind, value));
    let line = name + " "@ + value + "\n"@;
    assert(before + metric(name, help, kind, value) =~= before + metric_head(name, help, kind)
        + line);
    lemma_part_stands_in(before + metric_head(name, help, kind), line);
}

/// Every counter of the server stands on the page under its own name.
pub proof fn lemma_page_tells_all(m: ServerMetrics)
    ensures
        stands_in(metrics_text_of(m), "scryd_uptime_seconds"@ + " "@ + m.uptime_seconds@ + "\n"@),
        stands_in(
            metrics_text_of(m),
            "scryd_started_unix_seconds"@ + " "@ + decimal(m.started_unix_seconds as nat) + "\n"@,
        ),
        stands_in(
            metrics_text_of(m),
            "scryd_auth_success_total"@ + " "@ + decimal(m.auth.success_total as nat) + "\n"@,
        ),
        stands_in(
            metrics_text_of(m),
            "scryd_auth_unauthenticated_total"@ + " "@ + decimal(m.auth.unauthenticated_total as nat) + "\n"@,
        ),
        stands_in(
            metrics_text_of(m),
            "scryd_auth_denied_total"@ + " "@ + decimal(m.auth.denied_total as nat) + "\n"@,
        ),
        stands_in(
            metrics_text_of(m),
            "scryd_retention_runs_total"@ + " "@ + decimal(m.retention_runs_total as nat) + "\n"@,
        ),
        stands_in(
            metrics_text_of(m),
            "scryd_retention_deleted_total"@ + " "@ + decimal(m.retention_deleted_total as nat) + "\n"@,
        ),
        stands_in(
            metrics_text_of(m),
            "scryd_retention_last_deleted"@ + " "@ + decimal(m.retention_last_deleted as nat) + "\n"@,
        ),
        stands_in(
            metrics_text_of(m),
            "scryd_metrics_snapshot_runs_total"@ + " "@ + decimal(m.metrics_snapshot_runs_total as nat) + "\n"@,
        ),
        stands_in(
            metrics_text_of(m),
            "scryd_embedding_billed_credits_total"@ + " "@ + decimal(m.billing.credits_total as nat) + "\n"@,
        ),
        stands_in(
            metrics_text_of(m),
            "scryd_embedding_billed_tokens_total"@ + " "@ + decimal(m.billing.tokens_total as nat) + "\n"@,
        ),
        stands_in(
            metrics_text_of(m),
            "scryd_embedding_settlement_upstream_usage_total"@ + " "@ + decimal(m.billing.upstream_usage_total as nat) + "\n"@,
        ),
        stands_in(
            metrics_text_of(m),
            "scryd_embedding_settlement_estimated_total"@ + " "@ + decimal(m.billing.estimated_total as nat) + "\n"@,
        ),
{
    let t0 = Seq::<char>::empty() + (metric_head(
        "scry_index_open_total"@,
        "Open index stores by layout."@,
        "gauge"@,
    ) + "scry_index_open_total{layout=\""@ + m.layout@ + "\"} "@ + decimal(m.open_stores as nat)
        + "\n"@);
    let t1 = t0 + metric(
        "scryd_uptime_seconds"@,
        "Process uptime in seconds."@,
        "gauge"@,
        m.uptime_seconds@,
    );
    lemma_metric_stands_in(
        t0,
        "scryd_uptime_seconds"@,
        "Process uptime in seconds."@,
        "gauge"@,
        m.uptime_seconds@,
    );
    let t2 = t1 + metric(
        "scryd_started_unix_seconds"@,
        "Process start timestamp in unix seconds."@,
        "gauge"@,
        decimal(m.started_unix_seconds as nat),
    );
    lemma_metric_stands_in(
        t1,
        "scryd_started_unix_seconds"@,
        "Process start timestamp in unix seconds."@,
        "gauge"@,
        decimal(m.started_unix_seconds as nat),
    );
    let t3 = t2 + metric(
        "scryd_auth_success_total"@,
        "Successful auth checks."@,
        "counter"@,
        decimal(m.auth.success_total as nat),
    );
    lemma_metric_stands_in(
        t2,
        "scryd_auth_success_total"@,
        "Successful auth checks."@,
        "counter"@,
        decimal(m.auth.success_total as nat),
    );
    let t4 = t3 + metric(
        "scryd_auth_unauthenticated_total"@,
        "Unauthenticated auth failures."@,
        "counter"@,
        decimal(m.auth.unauthenticated_total as nat),
    );
    lemma_metric_stands_in(
        t3,
        "scryd_auth_unauthenticated_total"@,
        "Unauthenticated auth failures."@,
        "counter"@,
        decimal(m.auth.unauthenticated_total as nat),
    );
    let t5 = t4 + metric(
        "scryd_auth_denied_total"@,
        "Permission-denied auth failures."@,
        "counter"@,
        decimal(m.auth.denied_total as nat),
    );
    lemma_metric_stands_in(
        t4,
        "scryd_auth_denied_total"@,
        "Permission-denied auth failures."@,
        "counter"@,
        decimal(m.auth.denied_total as nat),
    );
    let t6 = t5 + metric(
        "scryd_retention_runs_total"@,
        "Events retention sweep runs."@,
        "counter"@,
        decimal(m.retention_runs_total as nat),
    );
    lemma_metric_stands_in(
        t5,
        "scryd_retention_runs_total"@,
        "Events retention sweep runs."@,
        "counter"@,
        decimal(m.retention_runs_total as nat),
    );
    let t7 = t6 + metric(
        "scryd_retention_deleted_total"@,
        "Events deleted by retention sweeps."@,
        "counter"@,
        decimal(m.retention_deleted_total as nat),
    );
    lemma_metric_stands_in(
        t6,
        "scryd_retention_deleted_total"@,
        "Events deleted by retention sweeps."@,
        "counter"@,
        decimal(m.retention_deleted_total as nat),
    );
    let t8 = t7 + metric(
        "scryd_retention_last_deleted"@,
        "Last retention sweep deleted events."@,
        "gauge"@,
        decimal(m.retention_last_deleted as nat),
    );
    lemma_metric_stands_in(
        t7,
        "scryd_retention_last_deleted"@,
        "Last retention sweep deleted events."@,
        "gauge"@,
        decimal(m.retention_last_deleted as nat),
    );
    let t9 = t8 + metric(
        "scryd_metrics_snapshot_runs_total"@,
        "Indexing snapshot sampling runs."@,
        "counter"@,
        decimal(m.metrics_snapshot_runs_total as nat),
    );
    lemma_metric_stands_in(
        t8,
        "scryd_metrics_snapshot_runs_total"@,
        "Indexing snapshot sampling runs."@,
        "counter"@,
        decimal(m.metrics_snapshot_runs_total as nat),
    );
    let t10 = t9 + metric(
        "scryd_embedding_billed_credits_total"@,
        "Credits billed for embedding calls (ceil of token-based charge)."@,
        "counter"@,
        decimal(m.billing.credits_total as nat),
    );
    lemma_metric_stands_in(
        t9,
        "scryd_embedding_billed_credits_total"@,
        "Credits billed for embedding calls (ceil of token-based charge)."@,
        "counter"@,
        decimal(m.billing.credits_total as nat),
    );
    let t11 = t10 + metric(
        "scryd_embedding_billed_tokens_total"@,
        "Tokens used for embedding credit settlement (upstream usage or estimate)."@,
        "counter"@,
        decimal(m.billing.tokens_total as nat),
    );
    lemma_metric_stands_in(
        t10,
        "scryd_embedding_billed_tokens_total"@,
        "Tokens used for embedding credit settlement (upstream usage or estimate)."@,
        "counter"@,
        decimal(m.billing.tokens_total as nat),
    );
    let t12 = t11 + metric(
        "scryd_embedding_settlement_upstream_usage_total"@,
        "Embedding calls settled using provider usage."@,
        "counter"@,
        decimal(m.billing.upstream_usage_total as nat),
    );
    lemma_metric_stands_in(
        t11,
        "scryd_embedding_settlement_upstream_usage_total"@,
        "Embedding calls settled using provider usage."@,
        "counter"@,
        decimal(m.billing.upstream_usage_total as nat),
    );
    let t13 = t12 + metric(
        "scryd_embedding_settlement_estimated_total"@,
        "Embedding calls settled using local token estimates."@,
        "counter"@,
        decimal(m.billing.estimated_total as nat),
    );
    lemma_metric_stands_in(
        t12,
        "scryd_embedding_settlement_estimated_total"@,
        "Embedding calls settled using local token estimates."@,
        "counter"@,
        decimal(m.billing.estimated_total as nat),
    );
    let u1 = t13 + metric_head(
        "scryd_rpc_requests_total"@,
        "gRPC unary/stream responses by service, method, and grpc-status code."@,
        "counter"@,
    );
    lemma_more_may_follow(t13, metric_head(
        "scryd_rpc_requests_total"@,
        "gRPC unary/stream responses by service, method, and grpc-status code."@,
        "counter"@,
    ));
    let u2 = u1 + count_lines_of(m.rpc.counted());
    lemma_more_may_follow(u1, count_lines_of(m.rpc.counted()));
    let u3 = u2 + metric_head(
        "scryd_rpc_duration_seconds"@,
        "gRPC handler wall time in seconds."@,
        "histogram"@,
    );
    lemma_more_may_follow(u2, metric_head(
        "scryd_rpc_duration_seconds"@,
        "gRPC handler wall time in seconds."@,
        "histogram"@,
    ));
    let u4 = u3 + all_times_lines(m.rpc.timed(), texts(m.rpc_sum_seconds@));
    lemma_more_may_follow(u3, all_times_lines(m.rpc.timed(), texts(m.rpc_sum_seconds@)));
    let queues = match m.queues {
        Some(q) => queue_text(q),
        None => Seq::empty(),
    };
    lemma_more_may_follow(u4, queues);
    assert(u4 + queues == metrics_text_of(m));
}

/// Every number of the queues stands on the page under its own name, and a latency where it is
/// known.
pub proof fn lemma_page_tells_of_queues(q: QueueMetrics)
    ensures
        stands_in(
            queue_text(q),
            "scryd_indexing_jobs_queued"@ + " "@ + decimal(q.queued_jobs as nat) + "\n"@,
        ),
        stands_in(
            queue_text(q),
            "scryd_indexing_jobs_running"@ + " "@ + decimal(q.running_jobs as nat) + "\n"@,
        ),
        stands_in(
            queue_text(q),
            "scryd_indexing_jobs_completed"@ + " "@ + decimal(q.completed_jobs as nat) + "\n"@,
        ),
        stands_in(
            queue_text(q),
            "scryd_indexing_jobs_failed"@ + " "@ + decimal(q.failed_jobs as nat) + "\n"@,
        ),
        q.avg_running_latency_ms is Some ==> stands_in(
            queue_text(q),
            "scryd_indexing_avg_running_latency_ms"@ + " "@ + q.avg_running_latency_ms->0@ + "\n"@,
        ),
        q.avg_completion_latency_ms is Some ==> stands_in(
            queue_text(q),
            "scryd_indexing_avg_completion_latency_ms"@ + " "@ + q.avg_completion_latency_ms->0@
                + "\n"@,
        ),
{
    let t0 = Seq::<char>::empty();
    let t1 = t0 + metric(
        "scryd_indexing_jobs_queued"@,
        "Queued indexing jobs."@,
        "gauge"@,
        decimal(q.queued_jobs as nat),
    );
    lemma_metric_stands_in(
        t0,
        "scryd_indexing_jobs_queued"@,
        "Queued indexing jobs."@,
        "gauge"@,
        decimal(q.queued_jobs as nat),
    );
    let t2 = t1 + metric(
        "scryd_indexing_jobs_running"@,
        "Running indexing jobs."@,
        "gauge"@,
        decimal(q.running_jobs as nat),
    );
    lemma_metric_stands_in(
        t1,
        "scryd_indexing_jobs_running"@,
        "Running indexing jobs."@,
        "gauge"@,
        decimal(q.running_jobs as nat),
    );
    let t3 = t2 + metric(
        "scryd_indexing_jobs_completed"@,
        "Completed indexing jobs."@,
        "counter"@,
        decimal(q.completed_jobs as nat),
    );
    lemma_metric_stands_in(
        t2,
        "scryd_indexing_jobs_completed"@,
        "Completed indexing jobs."@,
        "counter"@,
        decimal(q.completed_jobs as nat),
    );
    let t4 = t3 + metric(
        "scryd_indexing_jobs_failed"@,
        "Failed indexing jobs."@,
        "counter"@,
        decimal(q.failed_jobs as nat),
    );
    lemma_metric_stands_in(
        t3,
        "scryd_indexing_jobs_failed"@,
        "Failed indexing jobs."@,
        "counter"@,
        decimal(q.failed_jobs as nat),
    );
    let r = latency_line("scryd_indexing_avg_running_latency_ms"@, q.avg_running_latency_ms);
    let c = latency_line("scryd_indexing_avg_completion_latency_ms"@, q.avg_completion_latency_ms);
    lemma_more_may_follow(t4, r);
    lemma_part_stands_in(t4, r);
    lemma_more_may_follow(t4 + r, c);
    lemma_part_stands_in(t4 + r, c);
    assert(t4 + r + c == queue_text(q));
}

/// The page is found under its own path only.
pub proof fn lemma_only_one_page(path: Seq<char>, body: Seq<char>)
    ensures
        page_answer("/metrics"@, body)
            == "HTTP/1.1 200 OK\r\nContent-Type: text/plain; version=0.0.4\r\nContent-Length: "@
            + decimal(encode_utf8(body).len()) + "\r\nConnection: close\r\n\r\n"@ + body,
        path != "/metrics"@ ==> page_answer(path, body)
            == "HTTP/1.1 404 Not Found\r\nContent-Length: 0\r\nConnection: close\r\n\r\n"@,
{
}

/// What is asked for is the second word of the first line.
pub proof fn lemma_second_word_is_path(request: Seq<char>)
    ensures
        words(request.take(first_index(request, '\n'))).len() >= 2 ==> requested_path(request)
            == words(request.take(first_index(request, '\n')))[1],
        words(request.take(first_index(request, '\n'))).len() < 2 ==> requested_path(request)
            == "/"@,
{
}

/// In a label, a backslash stands before every backslash and every quotation mark, and nowhere else.
pub proof fn lemma_marks_are_escaped(s: Seq<char>, c: char)
    ensures
        escaped(Seq::empty()).len() == 0,
        c == '\\' || c == '"' ==> escaped(s.push(c)) == escaped(s) + seq!['\\', c],
        c != '\\' && c != '"' ==> escaped(s.push(c)) == escaped(s) + seq![c],
{
    assert(s.push(c).drop_last() =~= s);
    assert(escaped(s).push('\\').push(c) =~= escaped(s) + seq!['\\', c]);
    assert(escaped(s).push(c) =~= escaped(s) + seq![c]);
}

} // verus!

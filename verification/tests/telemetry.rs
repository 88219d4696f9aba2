use scry::auth::AuthCounters;
use scry::credits::BillingCounters;
use scry::metrics_text::{
    build_metrics_text, metrics_answer, prometheus_escape_label, request_path, QueueMetrics,
    ServerMetrics,
};
use scry::telemetry::{
    auth_kind, grpc_status_code, parse_grpc_path, request_id, rpc_code, RpcMetrics,
};

#[test]
fn parse_grpc_path_splits_service_and_method() {
    let (s, m) = parse_grpc_path("/scry.v1.Admin/CreateWorkspace");
    assert_eq!(s, "scry.v1.Admin");
    assert_eq!(m, "CreateWorkspace");
}

#[test]
fn grpc_status_reads_grpc_status_header() {
    assert_eq!(grpc_status_code(Some("16")), "16");
}

#[test]
fn grpc_status_defaults_to_ok_without_header() {
    assert_eq!(grpc_status_code(None), "0");
}

#[test]
fn prometheus_escape_label_escapes_backslash_and_quote() {
    assert_eq!(prometheus_escape_label(r#"a\b"c"#), r#"a\\b\"c"#);
}

#[test]
fn headers_that_say_nothing() {
    assert_eq!(grpc_status_code(Some("17")), "unknown");
    assert_eq!(grpc_status_code(Some("x")), "unknown");
    assert_eq!(rpc_code(true, Some("5")), "5");
    assert_eq!(rpc_code(true, None), "0");
    assert_eq!(rpc_code(false, None), "transport");
    assert_eq!(auth_kind(None), "none");
    assert_eq!(request_id(None, "fresh".to_string()), "fresh");
    assert_eq!(request_id(Some("given"), "fresh".to_string()), "given");
}

#[test]
fn rpcs_are_counted_and_timed() {
    let mut m = RpcMetrics::new();
    m.record_rpc("s", "m", "0", 3_000_000);
    m.record_rpc("s", "m", "0", 3_000_000_000);
    m.record_rpc("s", "m", "5", 1);
    assert_eq!(m.counts().len(), 2);
    assert_eq!(m.counts()[0].count, 2);
    assert_eq!(m.counts()[1].count, 1);
    let keys: Vec<(&str, &str, &str)> = m
        .counts()
        .iter()
        .map(|c| (c.service.as_str(), c.method.as_str(), c.code.as_str()))
        .collect();
    assert_eq!(keys, vec![("s", "m", "0"), ("s", "m", "5")]);
    assert_eq!(m.times().len(), 1);
    assert_eq!((m.times()[0].service.as_str(), m.times()[0].method.as_str()), ("s", "m"));
    let h = &m.times()[0].hist;
    assert_eq!(h.count, 3);
    assert_eq!(h.sum_ns, 3_003_000_001);
    assert_eq!(h.buckets.len(), 12);
    assert!(h.buckets.windows(2).all(|w| w[0] <= w[1]));
    assert_eq!(*h.buckets.last().unwrap(), 3);
}

fn metrics() -> ServerMetrics {
    ServerMetrics {
        layout: "per-workspace".to_string(),
        open_stores: 2,
        uptime_seconds: "1.5".to_string(),
        started_unix_seconds: 7,
        auth: AuthCounters::new(),
        retention_runs_total: 1,
        retention_deleted_total: 2,
        retention_last_deleted: 3,
        metrics_snapshot_runs_total: 4,
        billing: BillingCounters::new(),
        rpc: RpcMetrics::new(),
        rpc_sum_seconds: Vec::new(),
        queues: Some(QueueMetrics {
            queued_jobs: 5,
            running_jobs: 6,
            completed_jobs: 7,
            failed_jobs: 8,
            avg_running_latency_ms: Some("9".to_string()),
            avg_completion_latency_ms: None,
        }),
    }
}

#[test]
fn metrics_are_shown_as_text() {
    let text = build_metrics_text(&metrics());
    assert!(text.starts_with(
        "# HELP scry_index_open_total Open index stores by layout.\n# TYPE scry_index_open_total gauge\nscry_index_open_total{layout=\"per-workspace\"} 2\n"
    ));
    assert!(text.contains("scryd_uptime_seconds 1.5\n"));
    assert!(text.contains("scryd_started_unix_seconds 7\n"));
    assert!(text.contains("scryd_indexing_jobs_queued 5\n"));
    assert!(text.contains("scryd_indexing_jobs_failed 8\n"));
    assert!(text.contains("scryd_indexing_avg_running_latency_ms 9\n"));
    assert!(!text.contains("scryd_indexing_avg_completion_latency_ms"));
}

#[test]
fn rpc_metrics_are_shown_as_a_histogram() {
    let mut m = metrics();
    m.rpc.record_rpc("scry.v1.Io", "Re\"ad", "0", 3_000_000);
    m.rpc_sum_seconds.push("0.003".to_string());
    m.queues = None;
    let text = build_metrics_text(&m);
    assert!(text.contains("method=\"Re\\\"ad\""));
    assert!(text.contains(
        "scryd_rpc_duration_seconds_bucket{service=\"scry.v1.Io\",method=\"Re\\\"ad\",le=\"+Inf\"} 1\n"
    ));
    assert!(text.contains(
        "scryd_rpc_duration_seconds_sum{service=\"scry.v1.Io\",method=\"Re\\\"ad\"} 0.003\n"
    ));
    assert!(!text.contains("scryd_indexing_jobs_queued"));
}

#[test]
fn the_metrics_endpoint_answers() {
    assert_eq!(request_path("GET /metrics HTTP/1.1\r\nHost: x\r\n"), "/metrics");
    assert_eq!(request_path(""), "/");
    assert_eq!(
        metrics_answer("/metrics", "é\n"),
        "HTTP/1.1 200 OK\r\nContent-Type: text/plain; version=0.0.4\r\nContent-Length: 3\r\nConnection: close\r\n\r\né\n"
    );
    assert_eq!(
        metrics_answer("/", "x"),
        "HTTP/1.1 404 Not Found\r\nContent-Length: 0\r\nConnection: close\r\n\r\n"
    );
}

use scry::catalog::{
    catalog_status, check_deleted, check_registered, reconcile_plan, CatalogError,
    WorkspaceCatalogRecord, WorkspaceSummary,
};
use scry::credits::{
    estimate_tokens_batch, estimate_tokens_utf8, settle_tokens, usage_total_tokens,
    BillingCounters, EmbedTotals, EmbeddingCharge, Usage,
};
use scry::embedding::{
    check_batch_answer, check_query_answer, embedding_status, embeddings_endpoint, given_setting,
    order_embeddings, parse_bool_env, plan_batches, provider_from_setting, EmbeddingError,
    MockEmbeddingProvider, ProviderKind,
};
use scry::events::{
    acknowledge_subscriber, acknowledged_cursor, deliver_batch, deliver_notified,
    index_updated_payload, list_events_since, map_event_row, retention_cutoff, retention_plan,
    start_cursor, stored_cursor, subscribe_start, EventRow, SubscribeStart,
};
use scry::index_error::IndexError;
use scry::jobs::{
    average_ms, check_chunk_owner, check_embedding_count, chunk_page_limit, enqueue_indexing_job,
    fail_indexing_job, get_workspace_stats, indexing_metrics_snapshot, job_page_size, jobs_to_take,
    map_job_row, merge_snapshots, reported_count, retry_delay_ms, stored_lines, JobRow,
    WorkspaceCounts,
};
use scry::migrations::{missing_columns, pending_migrations, reader_pool_size, AddedColumn};
use scry::model::{ChunkContent, EventKind, EventRecord, IndexingJobStatus, NodeKind, SearchMode};
use scry::nodes::RowError;
use scry::numbers::{add_saturating_i64, stored_count, total};
use scry::rpc::{
    attrs_patch, check_child_request, check_put_request, check_rename_request, create_mode,
    expected_version, from_proto_kind, index_status, internal_status, normalize_fts_query,
    normalize_subscribe_filter, put_path_of_node, require_field, should_emit_event,
    to_index_handle_mode, to_index_search_mode, to_proto_event_kind, ProtoEventKind,
    ProtoHandleMode, ProtoNodeKind, ProtoSearchMode, PutRequest, SubscribeFilter,
};
use scry::lists::reversed;
use scry::search::{
    check_search, count_fts_hits, fuse_rankings, map_file_chunk_row, map_found_row, ranking_limit,
    shown_limit, FoundRow,
};
use scry::status::Code;
use scry::workspaces::{
    admin_workspace_id, layout_label, list_cursor, list_limit, list_workspace_ids,
    next_list_cursor, ping, store_for_workspace, unregistered, workspace_name, CatalogWalk,
    MonitorCounters, RootEntry, StoreSource, CATALOG_PAGE,
};

fn strings(v: &[&str]) -> Vec<String> {
    v.iter().map(|s| s.to_string()).collect()
}

fn event(id: u64, kind: EventKind, path: &str) -> EventRecord {
    EventRecord {
        cursor: id.to_string(),
        created_at_unix_nano: 1,
        kind,
        workspace_id: "w".to_string(),
        node_id: "n".to_string(),
        payload_json: "{}".to_string(),
        path: path.to_string(),
    }
}

fn all_events() -> SubscribeFilter {
    SubscribeFilter {
        path_prefix: Vec::new(),
        node_ids: Vec::new(),
        kinds: Vec::new(),
        include_index_events: true,
    }
}

#[test]
fn events_are_read_and_listed() {
    let e = map_event_row(
        EventRow {
            id: 12,
            kind: "node_created".to_string(),
            node_id: None,
            payload_json: "{}".to_string(),
            created_at_ns: 5,
            path: "p".to_string(),
        },
        "w",
    );
    assert_eq!((e.cursor.as_str(), e.node_id.as_str()), ("12", ""));
    assert_eq!(e.workspace_id, "w");
    let p = list_events_since(Some(3), 0).unwrap();
    assert_eq!((p.after, p.limit), (3, 1));
    let p = list_events_since(None, 9999).unwrap();
    assert_eq!((p.after, p.limit), (0, 1024));
    assert!(list_events_since(Some(u64::MAX), 1).is_err());
    assert_eq!(
        index_updated_payload(3, 4),
        "{\"index_version\":3,\"chunks_indexed\":4}"
    );
    assert_eq!(acknowledged_cursor("7").unwrap(), 7);
    assert!(acknowledged_cursor("x").is_err());
    assert_eq!(stored_cursor(Some(7)).unwrap(), Some(7));
    assert!(stored_cursor(Some(-7)).is_err());
}

#[test]
fn kinds_of_events_have_names() {
    for kind in [
        EventKind::NodeCreated,
        EventKind::NodeModified,
        EventKind::NodeDeleted,
        EventKind::NodeRenamed,
        EventKind::AttrsChanged,
        EventKind::IndexUpdated,
    ] {
        assert_eq!(EventKind::from_db(kind.as_db()), kind);
    }
    for status in [
        IndexingJobStatus::Queued,
        IndexingJobStatus::Running,
        IndexingJobStatus::Completed,
        IndexingJobStatus::Failed,
    ] {
        assert_eq!(IndexingJobStatus::from_db(status.as_db()), Some(status));
    }
    assert_eq!(NodeKind::from_db("dir"), Some(NodeKind::Dir));
    assert_eq!(NodeKind::from_db("x"), None);
    assert_eq!(NodeKind::File.as_db(), "file");
    assert_eq!(
        to_proto_event_kind(EventKind::NodeRenamed),
        ProtoEventKind::NodeRenamed
    );
}

#[test]
fn subscriptions_begin_where_they_should() {
    let at = subscribe_start("w", "5", "").unwrap();
    assert!(matches!(at, SubscribeStart::At(5)));
    assert_eq!(start_cursor(&at, None, Some(9)), 5);
    let latest = subscribe_start("w", "", "").unwrap();
    assert_eq!(start_cursor(&latest, None, Some(9)), 9);
    assert_eq!(start_cursor(&latest, None, None), 0);
    let named = subscribe_start("w", "", "me").unwrap();
    assert_eq!(start_cursor(&named, Some(4), Some(9)), 4);
    assert_eq!(start_cursor(&named, None, Some(9)), 9);
    assert!(subscribe_start("w", "x", "").is_err());
    assert_eq!(
        acknowledge_subscriber("w", "1", "").unwrap(),
        "default"
    );
}

#[test]
fn events_are_delivered_in_order() {
    let events = vec![
        event(2, EventKind::NodeModified, "docs/a"),
        event(3, EventKind::NodeModified, "other"),
    ];
    let filter = SubscribeFilter {
        path_prefix: strings(&["docs"]),
        ..all_events()
    };
    let (cursor, sent) = deliver_batch(Some(1), events, &filter);
    assert_eq!(cursor, Some(3));
    assert_eq!(sent.len(), 1);
    assert_eq!(sent[0].cursor, "2");
    let (cursor, sent) =
        deliver_notified(Some(3), event(3, EventKind::NodeModified, "docs/a"), &filter);
    assert_eq!((cursor, sent.is_none()), (Some(3), true));
    let (cursor, sent) =
        deliver_notified(Some(3), event(4, EventKind::NodeModified, "docs/a"), &filter);
    assert_eq!((cursor, sent.is_some()), (Some(4), true));
}

#[test]
fn filters_choose_events() {
    let e = event(1, EventKind::IndexUpdated, "a");
    assert!(should_emit_event(&e, &all_events()));
    let without = SubscribeFilter {
        include_index_events: false,
        ..all_events()
    };
    assert!(!should_emit_event(&e, &without));
    let by_node = SubscribeFilter {
        node_ids: strings(&["m"]),
        ..all_events()
    };
    assert!(!should_emit_event(&e, &by_node));
    let messy = SubscribeFilter {
        path_prefix: strings(&["//docs/", "/"]),
        node_ids: strings(&[" n ", " "]),
        ..all_events()
    };
    let clean = normalize_subscribe_filter(&messy);
    assert_eq!(clean.node_ids, strings(&[" n "]));
    assert_eq!(clean.path_prefix, strings(&["docs/"]));
}

#[test]
fn retention_keeps_the_newest() {
    assert_eq!(retention_cutoff(100, 40), 60);
    let p = retention_plan(i64::MAX, 2).unwrap();
    assert_eq!((p.cutoff_unix_nano, p.keep_offset), (i64::MAX, 1));
    assert!(retention_plan(0, u64::MAX).is_err());
}

#[test]
fn jobs_are_queued_and_retried() {
    let j = enqueue_indexing_job(3, 200).unwrap();
    assert_eq!((j.node_version, j.priority), (3, 10));
    assert!(enqueue_indexing_job(u64::MAX, 0).is_err());
    assert_eq!((job_page_size(0), job_page_size(1000)), (1, 256));
    assert_eq!(jobs_to_take(16, 4), Some(12));
    assert_eq!(jobs_to_take(16, 16), None);
    assert_eq!(
        [0, 1, 2, 3, 9].map(retry_delay_ms),
        [250, 1000, 5000, 30000, 30000]
    );
    assert_eq!(fail_indexing_job(10, 2).unwrap(), 2_000_010);
    assert_eq!(fail_indexing_job(i64::MAX, 2).unwrap(), i64::MAX);
    assert!(matches!(
        fail_indexing_job(0, u64::MAX),
        Err(IndexError::NumericConversion)
    ));
}

#[test]
fn rows_of_jobs_are_read() {
    let row = |priority: i64, status: &str| JobRow {
        id: 1,
        workspace_id: "w".to_string(),
        node_id: "n".to_string(),
        node_version: 2,
        priority,
        attempts: 0,
        status: status.to_string(),
    };
    let j = map_job_row(row(3, "queued")).unwrap();
    assert_eq!((j.node_version, j.priority), (2, 3));
    assert_eq!(j.status, IndexingJobStatus::Queued);
    assert!(matches!(
        map_job_row(row(300, "queued")),
        Err(RowError::OutOfRange { column: 4, value: 300 })
    ));
    assert!(matches!(
        map_job_row(row(3, "lost")),
        Err(RowError::UnknownWord { .. })
    ));
    assert_eq!(stored_lines(1, 2, 5).unwrap(), (1, 2));
    assert!(stored_lines(1, -2, 5).is_err());
}

#[test]
fn embeddings_belong_to_chunks() {
    assert!(check_embedding_count(2, 2).is_ok());
    assert!(matches!(
        check_embedding_count(2, 3),
        Err(IndexError::EmbeddingCountMismatch { expected: 2, actual: 3 })
    ));
    assert!(check_chunk_owner(1, Some("w"), "w").is_ok());
    let e = check_chunk_owner(1, Some("v"), "w").unwrap_err();
    assert_eq!(
        e.message(),
        "invalid input: chunk_id 1 does not belong to workspace w"
    );
    assert!(check_chunk_owner(1, None, "w").is_err());
    assert_eq!(chunk_page_limit(0), 1);
    assert_eq!(reported_count(5).unwrap(), 5);
}

#[test]
fn numbers_are_kept_in_range() {
    assert_eq!(add_saturating_i64(i64::MAX, 1), i64::MAX);
    assert_eq!(stored_count(-1), None);
    assert_eq!(stored_count(4), Some(4));
    assert_eq!(total(&vec![u64::MAX, 5]), u64::MAX);
    assert_eq!(total(&vec![1, 2, 3]), 6);
}

#[test]
fn snapshots_are_merged() {
    assert_eq!(average_ms(&Vec::new()), None);
    assert_eq!(average_ms(&vec![1, 2, 4]), Some(2));
    assert_eq!(average_ms(&vec![u64::MAX, u64::MAX]), Some(u64::MAX));
    let a = indexing_metrics_snapshot(1, 2, 3, 4, Some(10), None).unwrap();
    let b = indexing_metrics_snapshot(1, 0, 0, 0, Some(20), Some(6)).unwrap();
    let m = merge_snapshots(&vec![a, b]);
    assert_eq!((m.queued_jobs, m.running_jobs), (2, 2));
    assert_eq!(m.avg_running_latency_ms, Some(15));
    assert_eq!(m.avg_completion_latency_ms, Some(6));
    assert!(indexing_metrics_snapshot(-1, 0, 0, 0, None, None).is_err());
    let counts = |n: i64| WorkspaceCounts {
        file_count: n,
        dir_count: 2,
        chunk_count: 3,
        event_count: 4,
        total_content_bytes: 5,
        queued_jobs: 6,
        running_jobs: 7,
        completed_jobs: 8,
        failed_jobs: 9,
        indexing_policy_full_files: 10,
        indexing_policy_headline_only_files: 11,
        indexing_policy_skipped_files: 12,
    };
    assert_eq!(get_workspace_stats(counts(1)).unwrap().file_count, 1);
    assert!(get_workspace_stats(counts(-1)).is_err());
}

#[test]
fn tokens_are_estimated_and_settled() {
    assert_eq!(estimate_tokens_utf8(""), 0);
    assert_eq!(estimate_tokens_utf8("abcd"), 1);
    assert_eq!(estimate_tokens_utf8("abcde"), 2);
    let inputs = strings(&["abcd", "abcde"]);
    assert_eq!(estimate_tokens_batch(&inputs), 3);
    let usage = |prompt, total| Usage {
        prompt_tokens: prompt,
        total_tokens: total,
    };
    assert_eq!(usage_total_tokens(&usage(Some(4), Some(9))), Some(9));
    assert_eq!(usage_total_tokens(&usage(Some(4), None)), Some(4));
    assert_eq!(usage_total_tokens(&usage(None, None)), None);
    assert_eq!(settle_tokens(None, &inputs), (3, false));
    assert_eq!(settle_tokens(Some(usage(None, Some(7))), &inputs), (7, true));
}

#[test]
fn charges_are_counted() {
    let charge = EmbeddingCharge {
        total_tokens: 5,
        credits: 2,
        from_upstream_usage: true,
    };
    let mut b = BillingCounters::new();
    b.record_embedding_charge(&charge);
    b.record_embedding_charge(&EmbeddingCharge {
        total_tokens: 0,
        credits: 0,
        from_upstream_usage: false,
    });
    assert_eq!((b.credits_total, b.tokens_total), (2, 5));
    assert_eq!((b.upstream_usage_total, b.estimated_total), (1, 0));
    let mut t = EmbedTotals::new();
    assert!(t.charge().is_none());
    t.add_batch(3, &charge);
    t.add_batch(4, &charge);
    assert_eq!((t.indexed, t.tokens, t.credits), (7, 10, 4));
    assert!(t.charge().unwrap().from_upstream_usage);
}

#[test]
fn providers_are_chosen() {
    assert_eq!(provider_from_setting(None), Ok(ProviderKind::Mock));
    assert_eq!(
        provider_from_setting(Some(" OpenAI ")),
        Ok(ProviderKind::OpenAiCompatible)
    );
    assert_eq!(
        provider_from_setting(Some("x")),
        Err(
            "unsupported SCRYD_EMBED_PROVIDER='x', expected one of: mock, openai-compatible"
                .to_string()
        )
    );
    assert_eq!(embeddings_endpoint("http://h//"), "http://h/v1/embeddings");
    assert_eq!(given_setting(Some("  ".to_string())), None);
    assert_eq!(parse_bool_env("TRUE"), Some(true));
    assert_eq!(parse_bool_env("off"), Some(false));
    assert_eq!(parse_bool_env("?"), None);
    let mock = MockEmbeddingProvider {
        model_id: "m".to_string(),
    };
    assert_eq!(mock.provider_kind(), "mock");
    assert_eq!(mock.model_id(), "m");
    assert_eq!(mock.charge_for(&strings(&["abcd"])).credits, 0);
}

#[test]
fn answers_are_put_in_order() {
    let v = order_embeddings(vec![(1, 'b'), (0, 'a')], 2).unwrap();
    assert_eq!(v, vec!['a', 'b']);
    assert!(order_embeddings(vec![(0, 'a')], 2).is_err());
    assert!(order_embeddings(vec![(0, 'a'), (5, 'b')], 2).is_err());
    assert!(check_query_answer(1).is_ok());
    assert!(check_query_answer(0).is_err());
    assert!(check_batch_answer(2, 2).is_ok());
    assert_eq!(
        check_batch_answer(2, 1),
        Err("embedding batch size mismatch: 2 inputs vs 1 outputs".to_string())
    );
    let s = embedding_status(&EmbeddingError::Transport("t".to_string()));
    assert_eq!(s.code, Code::Unavailable);
    let e = EmbeddingError::ResponseShape("bad".to_string());
    assert!(e.message().ends_with("bad"));
}

#[test]
fn batches_stay_within_bytes() {
    let chunk = |id: i64, n: usize| ChunkContent {
        chunk_id: id,
        content: "x".repeat(n),
    };
    let page = vec![chunk(1, 6), chunk(2, 6), chunk(3, 2), chunk(4, 50)];
    assert_eq!(plan_batches(&page, 10), vec![(0, 1), (1, 3), (3, 4)]);
    assert_eq!(plan_batches(&Vec::new(), 10), Vec::new());
}

fn summary(id: &str) -> WorkspaceSummary {
    WorkspaceSummary {
        workspace_id: id.to_string(),
        name: format!("name {id}"),
        root_node_id: format!("root {id}"),
    }
}

#[test]
fn reconcile_detects_and_repairs_catalog_drift() {
    let index = vec![summary("ws-r1"), summary("ws-r2")];
    let catalog = vec![summary("ws-r1"), summary("ws-stale")];
    let plan = reconcile_plan(index.clone(), catalog);
    let dry = plan.report(false);
    assert_eq!((dry.missing_in_catalog, dry.stale_in_catalog), (1, 1));
    assert_eq!((dry.repaired_added, dry.repaired_deleted), (0, 0));
    let applied = plan.report(true);
    assert_eq!((applied.repaired_added, applied.repaired_deleted), (1, 1));
    assert_eq!(plan.missing[0].workspace_id, "ws-r2");
    assert_eq!(plan.stale[0].workspace_id, "ws-stale");
    let after = reconcile_plan(index.clone(), index).report(false);
    assert_eq!((after.missing_in_catalog, after.stale_in_catalog), (0, 0));
}

#[test]
fn catalogs_refuse() {
    assert!(check_registered(1, "ws-dup").is_ok());
    let err = check_registered(0, "ws-dup").unwrap_err();
    assert!(matches!(
        &err,
        CatalogError::WorkspaceAlreadyExists { workspace_id } if workspace_id == "ws-dup"
    ));
    assert_eq!(catalog_status(&err).code, Code::AlreadyExists);
    assert!(check_deleted(1, "w").is_ok());
    let err = check_deleted(0, "w").unwrap_err();
    assert_eq!(catalog_status(&err).code, Code::NotFound);
}

#[test]
fn workspaces_are_found_and_listed() {
    let open = strings(&["ws-2"]);
    assert!(matches!(
        store_for_workspace("/i", " ws-2 ", &open, false, false).unwrap(),
        StoreSource::Open(w) if w == "ws-2"
    ));
    assert!(matches!(
        store_for_workspace("/i", "ws-1", &open, true, false).unwrap(),
        StoreSource::File { db_path, .. } if db_path == "/i/ws-1/index.db"
    ));
    assert!(matches!(
        store_for_workspace("/i", "ws-1", &open, false, false),
        Err(IndexError::WorkspaceNotFound(_))
    ));
    assert!(store_for_workspace("/i", " ", &open, true, true).is_err());
    let entry = |name: &str, is_dir, has_index| RootEntry {
        name: name.to_string(),
        is_dir,
        has_index,
    };
    let entries = vec![
        entry("ws-3", true, true),
        entry("ws-1", true, true),
        entry("file", false, true),
        entry("empty", true, false),
        entry("ws-2", true, true),
    ];
    assert_eq!(
        list_workspace_ids(&entries, &strings(&["ws-2", "ws-0"])),
        strings(&["ws-0", "ws-1", "ws-2", "ws-3"])
    );
    assert_eq!(layout_label(), "per-workspace");
    assert_eq!(ping(), "pong");
}

#[test]
fn workspaces_are_administered() {
    assert_eq!(workspace_name(" a ").unwrap(), "a");
    let e = workspace_name("  ").unwrap_err();
    assert_eq!(
        (e.code, e.message.as_str()),
        (Code::InvalidArgument, "workspace name cannot be empty")
    );
    assert_eq!(
        admin_workspace_id("").unwrap_err().message,
        "workspace_id cannot be empty"
    );
    assert_eq!(
        unregistered("full").message,
        "failed to register workspace in catalog: full"
    );
    assert_eq!([0, 7, 5000].map(list_limit), [100, 7, 1000]);
    assert_eq!(list_cursor(" "), None);
    assert_eq!(list_cursor(" c "), Some("c".to_string()));
    let row = |id: &str| WorkspaceCatalogRecord {
        workspace_id: id.to_string(),
        name: String::new(),
        root_node_id: String::new(),
        created_at_unix_nano: 0,
    };
    let rows = vec![row("ws-1"), row("ws-2")];
    assert_eq!(next_list_cursor(&rows, 2), "ws-2");
    assert_eq!(next_list_cursor(&rows, 3), "");
}

#[test]
fn a_walk_meets_the_whole_catalog() {
    let row = |i: usize| WorkspaceCatalogRecord {
        workspace_id: format!("ws-{i:04}"),
        name: String::new(),
        root_node_id: String::new(),
        created_at_unix_nano: 0,
    };
    let all: Vec<WorkspaceCatalogRecord> = (0..600).map(row).collect();
    let mut walk = CatalogWalk::new();
    let mut asked = Vec::new();
    while !walk.done {
        asked.push(walk.cursor.clone());
        let page: Vec<WorkspaceCatalogRecord> = all
            .iter()
            .filter(|r| walk.cursor.as_ref().map_or(true, |c| r.workspace_id > *c))
            .take(CATALOG_PAGE as usize)
            .cloned()
            .collect();
        walk.take_page(page);
    }
    let ids: Vec<&str> = walk.rows.iter().map(|r| r.workspace_id.as_str()).collect();
    let want: Vec<&str> = all.iter().map(|r| r.workspace_id.as_str()).collect();
    assert_eq!(ids, want);
    let at = |s: &str| Some(s.to_string());
    assert_eq!(asked, vec![None, at("ws-0255"), at("ws-0511"), at("ws-0599")]);
}

#[test]
fn rows_of_chunks_are_read() {
    let c = map_file_chunk_row(9, 1, 4, "text".to_string()).unwrap();
    assert_eq!((c.chunk_id, c.start_line, c.end_line, c.content.as_str()), (9, 1, 4, "text"));
    let e = map_file_chunk_row(9, -1, -2, String::new()).unwrap_err();
    assert_eq!(e, RowError::OutOfRange { column: 1, value: -1 });
    let e = map_file_chunk_row(9, 1, 1 << 32, String::new()).unwrap_err();
    assert_eq!(e, RowError::OutOfRange { column: 2, value: 1 << 32 });
}

#[test]
fn values_are_turned_round() {
    assert_eq!(reversed(strings(&["a", "b", "c"])), strings(&["c", "b", "a"]));
    assert_eq!(reversed(Vec::<String>::new()), Vec::<String>::new());
}

#[test]
fn background_work_is_counted() {
    let mut c = MonitorCounters::new();
    c.note_retention(Some(4));
    c.note_retention(None);
    c.note_snapshot();
    assert_eq!((c.retention_runs, c.retention_deleted), (2, 4));
    assert_eq!((c.retention_last_deleted, c.snapshot_runs), (4, 1));
}

#[test]
fn searches_are_checked() {
    assert_eq!(
        check_search(" ", SearchMode::Fts).unwrap_err().message,
        "query cannot be empty"
    );
    let n = check_search("q", SearchMode::Hybrid).unwrap();
    assert!(n.text && n.embedding);
    let n = check_search("q", SearchMode::Vector).unwrap();
    assert!(!n.text && n.embedding);
    assert_eq!((shown_limit(0), shown_limit(5)), (1, 5));
    assert_eq!((ranking_limit(5), ranking_limit(u32::MAX)), (15, u32::MAX));
    assert_eq!(count_fts_hits(3).unwrap(), 3);
    assert!(count_fts_hits(-3).is_err());
    let row = |start_line| FoundRow {
        node_id: "n".to_string(),
        path: "p".to_string(),
        start_line,
        end_line: 9,
        content: "c".to_string(),
        context_path: "x".to_string(),
        is_headline: 1,
    };
    let f = map_found_row(row(3), 2).unwrap();
    assert_eq!((f.start_line, f.end_line, f.headline_only), (3, 9, true));
    assert!(matches!(
        map_found_row(row(-3), 2),
        Err(RowError::OutOfRange { column: 2, value: -3 })
    ));
}

#[test]
fn rankings_are_fused() {
    let fused = fuse_rankings(&vec![7, 8], &vec![9, 7]);
    let seen: Vec<(i64, usize, Vec<usize>)> = fused
        .into_iter()
        .map(|f| (f.chunk_id, f.first, f.ranks))
        .collect();
    assert_eq!(
        seen,
        vec![(7, 0, vec![1, 2]), (8, 1, vec![2]), (9, 2, vec![1])]
    );
    let top = fuse_rankings(&vec![1], &vec![1]);
    let score: f32 = top[0].ranks.iter().map(|r| 1.0 / (60.0 + *r as f32)).sum();
    assert!((score - 2.0f32 / 61.0f32).abs() < 1e-5);
}

#[test]
fn schema_migrations_are_idempotent_across_restarts() {
    let first = pending_migrations(&Vec::new(), 1);
    assert_eq!(first, vec![1]);
    assert_eq!(pending_migrations(&first, 1), Vec::<i64>::new());
    assert_eq!(pending_migrations(&vec![2], 3), vec![1, 3]);
}

#[test]
fn old_databases_gain_columns() {
    let nodes = strings(&["node_id", "path"]);
    let chunks = strings(&["id"]);
    let missing = missing_columns(&nodes, &chunks);
    assert_eq!(
        missing,
        vec![
            AddedColumn::ContentHash,
            AddedColumn::Mime,
            AddedColumn::IsHeadline,
            AddedColumn::IndexingPolicy
        ]
    );
    for c in &missing {
        assert!(c.statement().starts_with(&format!(
            "ALTER TABLE {} ADD COLUMN {} ",
            c.table_name(),
            c.column_name()
        )));
    }
    let nodes = strings(&["content_hash", "mime", "indexing_policy"]);
    let chunks = strings(&["is_headline"]);
    assert!(missing_columns(&nodes, &chunks).is_empty());
    assert_eq!(
        [None, Some(1), Some(8), Some(64)].map(reader_pool_size),
        [4, 4, 8, 32]
    );
}

#[test]
fn requests_are_checked() {
    assert!(require_field("x", "m").is_ok());
    assert_eq!(require_field(" ", "m").unwrap_err().message, "m");
    assert_eq!(
        check_child_request("", "n").unwrap_err().message,
        "parent_node_id cannot be empty"
    );
    assert_eq!(
        check_child_request("p", "").unwrap_err().message,
        "name cannot be empty"
    );
    assert_eq!(
        check_rename_request("p", "", "q", "n").unwrap_err().message,
        "name cannot be empty"
    );
    assert!(check_rename_request("p", "m", "q", "n").is_ok());
    assert_eq!(
        check_put_request(&PutRequest::Path(" ".to_string()))
            .unwrap_err()
            .message,
        "put target is required (target oneof or deprecated path)"
    );
    assert_eq!(
        put_path_of_node(None).unwrap_err().message,
        "node_id not found"
    );
    assert_eq!(expected_version(0), None);
    assert_eq!(expected_version(3), Some(3));
    assert_eq!(create_mode(NodeKind::Dir, 0), 0o755);
    assert_eq!(create_mode(NodeKind::File, 0), 0o644);
    assert_eq!(create_mode(NodeKind::File, 0o600), 0o600);
    let p = attrs_patch(true, 5, false, 6);
    assert_eq!((p.mode, p.mtime_unix_nano), (Some(5), None));
    assert!(from_proto_kind(ProtoNodeKind::Unspecified).is_err());
    assert_eq!(from_proto_kind(ProtoNodeKind::Dir), Ok(NodeKind::Dir));
    assert_eq!(
        to_index_search_mode(ProtoSearchMode::Unspecified),
        SearchMode::Fts
    );
    assert_eq!(
        to_index_handle_mode(ProtoHandleMode::Write),
        scry::model::HandleMode::Write
    );
}

#[test]
fn errors_become_statuses() {
    let s = index_status(&IndexError::WorkspaceNotFound("w".to_string()));
    assert_eq!(
        (s.code, s.message.as_str()),
        (Code::NotFound, "workspace not found: w")
    );
    let s = index_status(&IndexError::VersionConflict {
        expected: 1,
        found: 2,
    });
    assert_eq!(s.code, Code::FailedPrecondition);
    assert_eq!(internal_status("x").code, Code::Internal);
}

#[test]
fn queries_are_quoted() {
    assert_eq!(normalize_fts_query(" a-b \"c\" "), "\"a-b \"\"c\"\"\"");
    assert_eq!(normalize_fts_query("raw: a OR b "), "a OR b");
    assert_eq!(normalize_fts_query("raw:  "), "\"raw:\"");
}

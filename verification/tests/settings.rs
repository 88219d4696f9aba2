use scry::args::{
    apply_yaml_to_env, format_catalog_reconcile_report, parse_global_args,
    parse_reconcile_catalog_args, resolve_config_path, GlobalArgs, ReconcileCatalogArgs,
    YamlConfig,
};
use scry::catalog::{CatalogBackendKind, CatalogConfig, CatalogReconcileReport};
use scry::commands::{
    admin_bearer, admin_derived_endpoint, admin_derived_endpoint_from, admin_endpoint,
    admin_endpoint_from, admin_uri, format_workspace_line, format_workspace_stats, mint_token_args,
    reconcile_args, MintCommand,
};
use scry::connection::bearer;
use scry::file_indexing::{DEFAULT_HEADLINE_EACH_BYTES, DEFAULT_SKIP_CHUNKING_OVER_BYTES};
use scry::model::WorkspaceStats;
use scry::settings::{
    embed_batch_size_bytes, embed_batch_size_rows, embed_timeout_ms, env_bool_with_default,
    env_text, env_u64_with_default, env_usize_with_default, events_retention_from_settings,
    file_path_under, headline_each_bytes, io_limits, metrics_from_settings, size_setting,
    skip_chunking_over_bytes, stream_chunk_bytes_for_indexing, transport_from_settings, AddrValue, EnvValue, TransportEnv,
};
use scry::startup::{content_root, listeners, read_io_settings, read_settings, Listeners, ServerEnv};

fn text(s: &str) -> EnvValue {
    EnvValue::Text(s.to_string())
}

fn strings(v: &[&str]) -> Vec<String> {
    v.iter().map(|s| s.to_string()).collect()
}

fn addr(s: &str, loopback: bool) -> AddrValue {
    AddrValue::Addr {
        text: s.to_string(),
        loopback,
    }
}

fn transport() -> TransportEnv {
    TransportEnv {
        grpc_addr: AddrValue::Unset,
        unix_socket: EnvValue::Unset,
        tls_cert_path: EnvValue::Unset,
        tls_key_path: EnvValue::Unset,
        tls_client_ca_path: EnvValue::Unset,
        max_decoding_message_bytes: EnvValue::Unset,
        max_encoding_message_bytes: EnvValue::Unset,
        graceful_shutdown_timeout_secs: EnvValue::Unset,
        io_stream_chunk_bytes: EnvValue::Unset,
        max_frame_bytes: EnvValue::Unset,
    }
}

fn server() -> ServerEnv {
    ServerEnv {
        transport: transport(),
        auth_secret: text("s3cret"),
        dev_mode: EnvValue::Unset,
        auth_previous_secrets: EnvValue::Unset,
        allow_local_no_auth: EnvValue::Unset,
        enforce_scopes: EnvValue::Unset,
        retention_max_age_secs: EnvValue::Unset,
        retention_min_events: EnvValue::Unset,
        retention_sweep_secs: EnvValue::Unset,
        metrics_log_interval_secs: EnvValue::Unset,
        metrics_allow_public: EnvValue::Unset,
        metrics_addr: AddrValue::Unset,
        index_root: text("/i"),
        catalog_backend: EnvValue::Unset,
        catalog_db_path: EnvValue::Unset,
        catalog_postgres_url: EnvValue::Unset,
        events_bus_capacity: EnvValue::Unset,
        handle_idle_timeout_ms: EnvValue::Unset,
        io_handle_memory_limit: EnvValue::Unset,
        io_flush_copy_chunk_bytes: EnvValue::Unset,
    }
}

#[test]
fn variables_are_read() {
    assert_eq!(env_u64_with_default("K", &EnvValue::Unset, 7), Ok(7));
    assert_eq!(env_u64_with_default("K", &text("9"), 7), Ok(9));
    assert_eq!(
        env_u64_with_default("K", &text("x"), 7),
        Err("invalid K: x".to_string())
    );
    assert_eq!(
        env_usize_with_default("K", &EnvValue::NotUnicode, 7),
        Err("K must be valid unicode".to_string())
    );
    assert_eq!(env_bool_with_default("K", &text("yes"), false), Ok(true));
    assert_eq!(env_bool_with_default("K", &text("0"), true), Ok(false));
    assert!(env_bool_with_default("K", &text("maybe"), true).is_err());
    assert_eq!(env_text(&text("  ")), None);
    assert_eq!(env_text(&text(" a ")), Some("a".to_string()));
    assert_eq!(size_setting(Some("5"), 10, 20), 10);
    assert_eq!(size_setting(Some("x"), 10, 20), 20);
    assert_eq!(size_setting(None, 10, 20), 20);
    assert_eq!(stream_chunk_bytes_for_indexing(Some("1")), 65536);
    assert_eq!(stream_chunk_bytes_for_indexing(None), 1048576);
    assert_eq!(embed_batch_size_rows(Some("0")), 1);
    assert_eq!(embed_batch_size_rows(None), 64);
    assert_eq!(embed_batch_size_bytes(Some("1")), 8192);
    assert_eq!(embed_batch_size_bytes(None), 262144);
}

#[test]
fn paths_are_joined() {
    assert_eq!(file_path_under("/a", "b"), "/a/b");
    assert_eq!(file_path_under("/a/", "b"), "/a/b");
    assert_eq!(file_path_under("", "b"), "b");
    assert_eq!(file_path_under("/a", "/b"), "/b");
}

#[test]
fn the_transport_is_safe() {
    let d = "127.0.0.1:50051";
    let c = transport_from_settings(&transport(), d, true).unwrap();
    assert_eq!(c.tcp_addr, d);
    assert_eq!(c.max_decoding_message_bytes, 16777216);
    assert_eq!(c.io_stream_chunk_bytes, 1048576);
    let mut open = transport();
    open.grpc_addr = addr("0.0.0.0:1", false);
    let e = transport_from_settings(&open, d, true).unwrap_err();
    assert!(e.starts_with("SCRYD_GRPC_ADDR=0.0.0.0:1 is not loopback and TLS is not configured."));
    open.tls_cert_path = text("c");
    assert_eq!(
        transport_from_settings(&open, d, true).unwrap_err(),
        "SCRYD_TLS_CERT_PATH and SCRYD_TLS_KEY_PATH must be set together"
    );
    open.tls_key_path = text("k");
    assert!(transport_from_settings(&open, d, true).is_ok());
    let mut ca = transport();
    ca.tls_client_ca_path = text("ca");
    assert_eq!(
        transport_from_settings(&ca, d, true).unwrap_err(),
        "SCRYD_TLS_CLIENT_CA_PATH requires SCRYD_TLS_CERT_PATH/SCRYD_TLS_KEY_PATH"
    );
    let mut bad = transport();
    bad.grpc_addr = AddrValue::Invalid("x".to_string());
    assert_eq!(
        transport_from_settings(&bad, d, true).unwrap_err(),
        "invalid SCRYD_GRPC_ADDR: x"
    );
}

#[test]
fn retention_and_metrics_have_defaults() {
    let u = EnvValue::Unset;
    let r = events_retention_from_settings(&u, &u, &u).unwrap();
    assert_eq!((r.max_age_secs, r.min_events_per_workspace), (604800, 100000));
    let m = metrics_from_settings(&text("0"), &u, &AddrValue::Unset).unwrap();
    assert_eq!((m.log_interval_secs, m.endpoint_addr), (1, None));
    let public = addr("0.0.0.0:9", false);
    assert!(metrics_from_settings(&u, &u, &public)
        .unwrap_err()
        .contains("SCRYD_METRICS_ALLOW_PUBLIC=1"));
    let m = metrics_from_settings(&u, &text("1"), &public).unwrap();
    assert_eq!(m.endpoint_addr.as_deref(), Some("0.0.0.0:9"));
    let l = io_limits(1, 1, 1);
    assert_eq!(
        (
            l.handle_memory_limit,
            l.flush_copy_chunk_bytes,
            l.events_bus_capacity
        ),
        (4096, 8192, 32)
    );
}

#[test]
fn catalogs_are_configured() {
    let u = EnvValue::Unset;
    let c = CatalogConfig::from_settings(&u, &u, &u, "/i").unwrap();
    assert_eq!(c.backend, CatalogBackendKind::Sqlite);
    assert_eq!(c.sqlite_db_path.as_deref(), Some("/i/_catalog.db"));
    let c = CatalogConfig::from_settings(&text(" Postgres "), &u, &text("pg"), "/i").unwrap();
    assert_eq!(c.backend, CatalogBackendKind::Postgres);
    assert_eq!(c.postgres_url.as_deref(), Some("pg"));
    assert_eq!(
        CatalogConfig::from_settings(&text("postgres"), &u, &u, "/i").unwrap_err(),
        "SCRYD_CATALOG_POSTGRES_URL is required when SCRYD_CATALOG_BACKEND=postgres"
    );
    assert_eq!(
        CatalogConfig::from_settings(&text("x"), &u, &u, "/i").unwrap_err(),
        "invalid SCRYD_CATALOG_BACKEND: x"
    );
}

#[test]
fn faults_surface_in_order() {
    let d = "127.0.0.1:50051";
    let s = read_settings(&server(), d, true).unwrap();
    assert_eq!(s.index_root, "/i");
    assert_eq!(listeners(&s.transport), Listeners::Tcp);
    let mut env = server();
    env.index_root = EnvValue::Unset;
    let e = read_settings(&env, d, true).unwrap_err();
    assert_eq!(
        e,
        "SCRYD_INDEX_ROOT is required (per-workspace layout is the only supported layout)"
    );
    env.metrics_addr = addr("0.0.0.0:9", false);
    assert!(read_settings(&env, d, true)
        .unwrap_err()
        .starts_with("SCRYD_METRICS_ADDR="));
    env.auth_secret = EnvValue::Unset;
    assert!(read_settings(&env, d, true)
        .unwrap_err()
        .starts_with("SCRYD_AUTH_SECRET is set"));
    env.transport.grpc_addr = addr("0.0.0.0:1", false);
    assert!(read_settings(&env, d, true)
        .unwrap_err()
        .starts_with("SCRYD_GRPC_ADDR="));
    let mut unix = server();
    unix.transport.unix_socket = text("/s");
    let s = read_settings(&unix, d, true).unwrap();
    assert_eq!(listeners(&s.transport), Listeners::TcpAndUnix);
}

#[test]
fn io_settings_have_least_values() {
    let s = read_io_settings(&server(), 1048576).unwrap();
    assert_eq!(s.events_bus_capacity, 4096);
    assert_eq!(s.handle_idle_timeout_ms, 300000);
    assert_eq!(s.io_handle_memory_limit, 33554432);
    assert_eq!(s.io_flush_copy_chunk_bytes, 1048576);
    let mut env = server();
    env.io_flush_copy_chunk_bytes = text("8191");
    assert_eq!(
        read_io_settings(&env, 1048576),
        Err("SCRYD_IO_FLUSH_COPY_CHUNK_BYTES must be >= 8192".to_string())
    );
    env.io_handle_memory_limit = text("4095");
    assert_eq!(
        read_io_settings(&env, 1048576),
        Err("SCRYD_IO_HANDLE_MEMORY_LIMIT must be >= 4096".to_string())
    );
    env.handle_idle_timeout_ms = text("soon");
    assert_eq!(
        read_io_settings(&env, 1048576),
        Err("invalid SCRYD_HANDLE_IDLE_TIMEOUT_MS: soon".to_string())
    );
    env.events_bus_capacity = text("0");
    assert_eq!(
        read_io_settings(&env, 1048576),
        Err("SCRYD_EVENTS_BUS_CAPACITY must be > 0".to_string())
    );
    assert_eq!(content_root(&EnvValue::Unset), "/tmp/scry/content");
    assert_eq!(content_root(&text("/c")), "/c");
}

#[test]
fn global_arguments_come_first() {
    assert_eq!(
        parse_global_args(&strings(&["--config", "/c.yaml", "serve", "--x"])).unwrap(),
        GlobalArgs::Run {
            config_path: Some("/c.yaml".to_string()),
            rest: strings(&["serve", "--x"])
        }
    );
    assert_eq!(parse_global_args(&strings(&["--help"])).unwrap(), GlobalArgs::Help);
    assert!(parse_global_args(&strings(&["--config"])).is_err());
    assert_eq!(
        resolve_config_path(None, &text(" /e ")),
        Some("/e".to_string())
    );
    assert_eq!(
        resolve_config_path(Some("/a".to_string()), &text("/e")),
        Some("/a".to_string())
    );
}

#[test]
fn reconciling_reads_arguments() {
    assert_eq!(
        parse_reconcile_catalog_args(&reconcile_args(true, 5), 256),
        Ok(ReconcileCatalogArgs::Run {
            apply: true,
            limit: 5
        })
    );
    assert_eq!(
        parse_reconcile_catalog_args(&Vec::new(), 256),
        Ok(ReconcileCatalogArgs::Run {
            apply: false,
            limit: 256
        })
    );
    for (args, message) in [
        (vec!["--limit"], "missing value for --limit"),
        (vec!["--limit", "x"], "invalid --limit value: x"),
        (vec!["--limit", "0"], "--limit must be > 0"),
        (vec!["--x"], "unknown reconcile-catalog argument: --x"),
    ] {
        assert_eq!(
            parse_reconcile_catalog_args(&strings(&args), 256),
            Err(message.to_string())
        );
    }
    assert_eq!(
        parse_reconcile_catalog_args(&strings(&["-h"]), 256),
        Ok(ReconcileCatalogArgs::Help)
    );
    let report = CatalogReconcileReport {
        checked_index_workspaces: 1,
        missing_in_catalog: 2,
        checked_catalog_workspaces: 3,
        stale_in_catalog: 4,
        repaired_added: 5,
        repaired_deleted: 6,
    };
    assert_eq!(
        format_catalog_reconcile_report(&report),
        "checked_index_workspaces=1 missing_in_catalog=2 checked_catalog_workspaces=3 stale_in_catalog=4 repaired_added=5 repaired_deleted=6"
    );
}

#[test]
fn commands_are_handed_on() {
    let command = MintCommand {
        kind: Some("admin".to_string()),
        workspace_id: None,
        scope: Some("s".to_string()),
        ttl_secs: 3600,
        secret: None,
    };
    assert_eq!(
        mint_token_args(&command),
        strings(&["--kind", "admin", "--scope", "s", "--ttl-secs", "3600"])
    );
    assert_eq!(
        reconcile_args(false, 256),
        strings(&["--dry-run", "--limit", "256"])
    );
    assert_eq!(
        admin_uri("127.0.0.1:1", false, false),
        ("http://127.0.0.1:1".to_string(), false)
    );
    assert_eq!(
        admin_uri("127.0.0.1:1", false, true),
        ("https://127.0.0.1:1".to_string(), true)
    );
    let t = Some("t".to_string());
    assert_eq!(admin_bearer(&t, &None), Ok("Bearer t".to_string()));
    assert_eq!(admin_bearer(&None, &t), Ok("Bearer t".to_string()));
    assert_eq!(
        admin_bearer(&None, &None),
        Err("admin RPC requires --token or SCRYD_ADMIN_TOKEN".to_string())
    );
    let own = Some("own".to_string());
    assert_eq!(admin_bearer(&own, &t), Ok("Bearer own".to_string()));
    assert_eq!(format_workspace_line("w", "n", "r"), "w\tn\tr");
}

#[test]
fn stats_are_printed() {
    let s = WorkspaceStats {
        file_count: 1,
        dir_count: 2,
        chunk_count: 3,
        event_count: 4,
        total_content_bytes: 5,
        queued_jobs: 6,
        running_jobs: 7,
        completed_jobs: 8,
        failed_jobs: 9,
        indexing_policy_full_files: 10,
        indexing_policy_headline_only_files: 11,
        indexing_policy_skipped_files: 12,
    };
    assert_eq!(
        format_workspace_stats(&s),
        "files=1 dirs=2 chunks=3 events=4 content_bytes=5\njobs queued=6 running=7 completed=8 failed=9\nindexing_policy files full=10 headline_only=11 skipped=12"
    );
}

#[test]
fn yaml_gives_defaults() {
    let mut c = YamlConfig {
        content_root: Some("/c".to_string()),
        index_root: None,
        auth_secret: Some("  ".to_string()),
        auth_previous_secrets: Some(strings(&["a", " ", " b "])),
        allow_local_no_auth: Some(true),
        enforce_scopes: None,
        token_ttl_secs: Some(60),
        grpc_addr: None,
        grpc_unix_socket: None,
        tls_cert_path: None,
        tls_key_path: None,
        tls_client_ca_path: None,
        graceful_shutdown_timeout_secs: None,
        retention_max_age_secs: None,
        retention_min_events_per_workspace: None,
        retention_sweep_interval_secs: None,
        metrics_log_interval_secs: None,
        metrics_addr: None,
        catalog_backend: None,
        catalog_db_path: None,
        catalog_postgres_url: None,
        embed_provider: None,
        embed_base_url: None,
        embed_api_key: None,
        embed_model: None,
        embed_timeout_ms: None,
        embed_document_task: None,
        embed_query_task: None,
        embed_normalized: None,
        credits_per_million_tokens: None,
    };
    let defaults: Vec<(String, String)> = apply_yaml_to_env(&c)
        .into_iter()
        .map(|d| (d.key, d.value))
        .collect();
    assert!(defaults.contains(&("SCRYD_CONTENT_ROOT".to_string(), "/c".to_string())));
    assert!(defaults.contains(&("SCRYD_AUTH_PREVIOUS_SECRETS".to_string(), "a,b".to_string())));
    assert!(defaults.contains(&("SCRYD_ALLOW_LOCAL_NO_AUTH".to_string(), "true".to_string())));
    assert!(!defaults.iter().any(|d| d.0 == "SCRYD_AUTH_SECRET"));
    assert_eq!(defaults.len(), 4);
    c.index_root = Some("/i".to_string());
    assert_eq!(apply_yaml_to_env(&c).len(), 5);
}

#[test]
fn plain_numbers_have_defaults() {
    assert_eq!(skip_chunking_over_bytes(None), DEFAULT_SKIP_CHUNKING_OVER_BYTES);
    assert_eq!(skip_chunking_over_bytes(Some("0")), 0);
    assert_eq!(skip_chunking_over_bytes(Some("77")), 77);
    assert_eq!(skip_chunking_over_bytes(Some(" 77")), DEFAULT_SKIP_CHUNKING_OVER_BYTES);
    assert_eq!(skip_chunking_over_bytes(Some("-1")), DEFAULT_SKIP_CHUNKING_OVER_BYTES);
    assert_eq!(headline_each_bytes(None), DEFAULT_HEADLINE_EACH_BYTES);
    assert_eq!(headline_each_bytes(Some("12")), 12);
    assert_eq!(headline_each_bytes(Some("x")), DEFAULT_HEADLINE_EACH_BYTES);
    assert_eq!(embed_timeout_ms(None), 15000);
    assert_eq!(embed_timeout_ms(Some("250")), 250);
    assert_eq!(embed_timeout_ms(Some("")), 15000);
}

#[test]
fn an_endpoint_says_whether_it_is_encrypted() {
    assert_eq!(
        admin_endpoint("http://host:7000", false),
        Ok(("http://host:7000/".to_string(), false))
    );
    assert_eq!(
        admin_endpoint("https://host:7000", false),
        Ok(("https://host:7000/".to_string(), true))
    );
    assert_eq!(
        admin_endpoint("http://host:7000", true),
        Ok(("http://host:7000/".to_string(), true))
    );
    assert_eq!(
        admin_endpoint("host:7000", false),
        Ok(("host:7000".to_string(), false))
    );
    assert_eq!(
        admin_endpoint("http://a b", false),
        Err("invalid --endpoint URI".to_string())
    );
    assert_eq!(
        admin_endpoint_from(Some((Some("https".to_string()), "u".to_string())), false),
        Ok(("u".to_string(), true))
    );
    assert_eq!(
        admin_endpoint_from(Some((None, "u".to_string())), true),
        Ok(("u".to_string(), true))
    );
    assert_eq!(
        admin_endpoint_from(None, true),
        Err("invalid --endpoint URI".to_string())
    );
}

#[test]
fn tokens_have_to_fit_into_metadata() {
    let invalid = Err("invalid token for metadata".to_string());
    for c in ['\n', '\r', '\0', '\u{1f}', '\u{7f}'] {
        let token = Some(format!("a{c}b"));
        assert_eq!(admin_bearer(&token, &None), invalid);
        assert_eq!(admin_bearer(&None, &token), invalid);
        assert_eq!(bearer(&format!("{c}")), None);
    }
    for c in [' ', '~', '\t', '\u{80}', 'é', '€', '😀'] {
        let token = Some(format!("a{c}b"));
        assert_eq!(admin_bearer(&token, &None), Ok(format!("Bearer a{c}b")));
    }
    assert_eq!(admin_bearer(&Some(String::new()), &None), Ok("Bearer ".to_string()));
    assert_eq!(
        admin_bearer(&Some("a\nb".to_string()), &Some("ok".to_string())),
        invalid
    );
}

#[test]
fn the_derived_endpoint_is_a_uri() {
    assert_eq!(
        admin_derived_endpoint("127.0.0.1:50051", false, false),
        Ok(("http://127.0.0.1:50051/".to_string(), false))
    );
    assert_eq!(
        admin_derived_endpoint("127.0.0.1:50051", true, false),
        Ok(("https://127.0.0.1:50051/".to_string(), true))
    );
    assert_eq!(
        admin_derived_endpoint("[::1]:50051", false, true),
        Ok(("https://[::1]:50051/".to_string(), true))
    );
    let invalid = Err("derived admin URI".to_string());
    assert_eq!(admin_derived_endpoint("a b", false, false), invalid);
    assert_eq!(admin_derived_endpoint_from(None, true), invalid);
    assert_eq!(
        admin_derived_endpoint_from(Some((None, "u".to_string())), true),
        Ok(("u".to_string(), true))
    );
}

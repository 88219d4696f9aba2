use scry::chunking::IndexedChunk;
use scry::file_indexing::{prepare_file_indexing, IndexingPolicyDb};
use scry::index_error::IndexError;
use scry::model::{AttrsPatch, EventKind, NodeAttrs, NodeKind, NodeRecord};
use scry::nodes::{
    check_version, child_path, choose_mime, create_node, create_workspace, get_attrs_if_changed,
    infer_mime_for_put, map_node_row, next_dir_cursor, plan_put_with_guess, plan_rename_with_guess,
    put_file_with_prepared, put_target, read_dir_page, rename, rename_paths, require_directory,
    require_node, require_node_at, require_workspace, set_attrs, unlink, CreatePlan, ExistingFile,
    NodeRow, RowError,
};
use scry::paths::{
    join_path, normalized_index_path, parse_cursor, split_parent_name, strip_leading_slashes,
};
use scry::refs::{set_redirect, RefResolution, RefStep, MAX_REDIRECT_HOPS};

fn node(id: &str, parent: Option<&str>, name: &str, path: &str, kind: NodeKind) -> NodeRecord {
    NodeRecord {
        node_id: id.to_string(),
        parent_node_id: parent.map(|p| p.to_string()),
        name: name.to_string(),
        path: path.to_string(),
        attrs: NodeAttrs {
            kind,
            size: 0,
            mtime_unix_nano: 0,
            mode: 0o644,
            version: 1,
            content_hash: String::new(),
            mime: String::new(),
        },
    }
}

fn root() -> NodeRecord {
    node("r", None, "", "", NodeKind::Dir)
}

fn docs() -> NodeRecord {
    node("d", Some("r"), "docs", "docs", NodeKind::Dir)
}

#[test]
fn paths_are_normalized() {
    assert_eq!(normalized_index_path("/docs/a.md").unwrap(), "docs/a.md");
    assert_eq!(normalized_index_path(" / ").unwrap(), "");
    assert!(put_target("").is_err());
    assert!(normalized_index_path("a//b").is_err());
    assert!(normalized_index_path("a\\b").is_err());
    assert!(normalized_index_path("a/../b").is_err());
    assert_eq!(strip_leading_slashes("//a/b"), "a/b");
    let (p, n) = split_parent_name("docs/a.md").unwrap();
    assert_eq!((p.as_str(), n.as_str()), ("docs", "a.md"));
    assert_eq!(join_path("", "a").unwrap(), "a");
    assert_eq!(join_path("docs", "a").unwrap(), "docs/a");
    assert!(join_path("docs", "a/b").is_err());
    assert!(join_path("docs", "..").is_err());
    assert_eq!(parse_cursor(None).unwrap(), 0);
    assert_eq!(parse_cursor(Some("12")).unwrap(), 12);
    assert!(matches!(
        parse_cursor(Some("x")),
        Err(IndexError::InvalidCursor)
    ));
}

#[test]
fn lookups_say_what_is_missing() {
    assert!(require_workspace(true, "w").is_ok());
    assert!(matches!(
        require_workspace(false, "w"),
        Err(IndexError::WorkspaceNotFound(w)) if w == "w"
    ));
    assert!(matches!(
        require_node(None, "w", "n"),
        Err(IndexError::NodeIdNotFound { .. })
    ));
    assert!(matches!(
        require_node_at(None, "w", "p"),
        Err(IndexError::NodeNotFound { .. })
    ));
    assert!(matches!(
        require_directory(None, "p"),
        Err(IndexError::ParentNotFound(p)) if p == "p"
    ));
    let file = node("f", Some("r"), "f", "f", NodeKind::File);
    assert!(require_directory(Some(file.clone()), "f").is_err());
    assert_eq!(require_directory(Some(docs()), "docs").unwrap().node_id, "d");
    assert_eq!(child_path(&docs(), "d", "a").unwrap(), "docs/a");
    assert!(matches!(
        child_path(&file, "f", "a"),
        Err(IndexError::NotDirectory(_))
    ));
}

#[test]
fn put_file_if_version_mismatch_returns_conflict() {
    let target = put_target("docs/x.md").unwrap();
    let prepared = prepare_file_indexing("docs/x.md", b"v2", 100, 100);
    let existing = ExistingFile {
        node_id: "x".to_string(),
        version: 2,
        mime: String::new(),
    };
    let err = put_file_with_prepared(
        target,
        Some(docs()),
        Some(existing),
        "new".to_string(),
        Some(1),
        2,
        prepared,
    )
    .expect_err("stale if_version");
    assert!(
        matches!(err, IndexError::VersionConflict { expected: 1, found: 2 }),
        "expected version conflict, got {err:?}"
    );
}

#[test]
fn the_second_writer_is_refused() {
    let write = |version: u64| {
        put_file_with_prepared(
            put_target("docs/x.md").unwrap(),
            Some(docs()),
            Some(ExistingFile { node_id: "x".to_string(), version, mime: String::new() }),
            "new".to_string(),
            Some(7),
            2,
            prepare_file_indexing("docs/x.md", b"v2", 100, 100),
        )
    };
    let first = write(7).expect("nobody came first");
    assert_eq!(first.file.version, 8);
    let err = write(first.file.version).expect_err("somebody came first");
    assert!(matches!(err, IndexError::VersionConflict { expected: 7, found: 8 }));
}

#[test]
fn files_are_put() {
    let target = put_target("/docs/x.md").unwrap();
    assert_eq!(
        (target.path.as_str(), target.parent_path.as_str(), target.name.as_str()),
        ("docs/x.md", "docs", "x.md")
    );
    let prepared = prepare_file_indexing("docs/x.md", b"hello", 100, 100);
    let digest = prepared.digest_hex.clone();
    let plan = put_file_with_prepared(
        target,
        Some(docs()),
        None,
        "new".to_string(),
        None,
        5,
        prepared,
    )
    .unwrap();
    assert_eq!(plan.file.node_id, "new");
    assert_eq!((plan.file.version, plan.file.size), (1, 5));
    assert_eq!(plan.file.content_hash, digest);
    assert_eq!(plan.mime, "text/markdown");
    assert_eq!(plan.event, EventKind::NodeModified);
    assert_eq!(plan.indexing_policy, IndexingPolicyDb::Full);
    let created = plan.created.unwrap();
    assert_eq!(created.parent_node_id, "d");
    assert_eq!(created.mode, 0o644);

    let target = put_target("docs/x.md").unwrap();
    let prepared = prepare_file_indexing("docs/x.md", b"hello", 100, 100);
    let existing = ExistingFile {
        node_id: "old".to_string(),
        version: 1,
        mime: "x/y".to_string(),
    };
    let plan = plan_put_with_guess(
        target,
        Some(docs()),
        Some(existing),
        "new".to_string(),
        "text/plain".to_string(),
        Some(1),
        5,
        prepared,
    )
    .unwrap();
    assert_eq!(plan.file.node_id, "old");
    assert_eq!(plan.file.version, 2);
    assert_eq!(plan.mime, "x/y");
    assert!(plan.created.is_none());
    assert_eq!(plan.event, EventKind::NodeModified);
}

#[test]
fn put_needs_a_directory() {
    let prepared = prepare_file_indexing("docs/x.md", b"", 100, 100);
    let target = put_target("docs/x.md").unwrap();
    let e = put_file_with_prepared(target, None, None, "n".to_string(), None, 0, prepared)
        .unwrap_err();
    assert!(matches!(e, IndexError::ParentNotFound(_)));
}

#[test]
fn mime_types_are_guessed() {
    assert_eq!(infer_mime_for_put("", "a/b.png"), "image/png");
    assert_eq!(infer_mime_for_put("", "b.unknown-kind"), "application/octet-stream");
    assert_eq!(infer_mime_for_put("text/x", "b.png"), "text/x");
    assert_eq!(choose_mime("", "g".to_string()), "g");
}

#[test]
fn versions_guard_changes() {
    assert!(check_version(None, 7).is_ok());
    assert!(check_version(Some(7), 7).is_ok());
    assert!(matches!(
        check_version(Some(6), 7),
        Err(IndexError::VersionConflict { expected: 6, found: 7 })
    ));
}

#[test]
fn workspaces_begin_with_a_root() {
    let r = create_workspace(true, "w", "root".to_string()).unwrap();
    assert_eq!((r.node_id.as_str(), r.path.as_str()), ("root", ""));
    assert_eq!((r.kind, r.mode), (NodeKind::Dir, 0o755));
    assert!(r.parent_node_id.is_none());
    assert!(matches!(
        create_workspace(false, "w", "root".to_string()),
        Err(IndexError::WorkspaceAlreadyExists(w)) if w == "w"
    ));
}

#[test]
fn nodes_are_created() {
    let plan = create_node(
        "d",
        "a.md",
        "docs/a.md".to_string(),
        None,
        NodeKind::File,
        0o600,
        true,
        "new".to_string(),
    )
    .unwrap();
    let made = match plan {
        CreatePlan::Insert(n) => n,
        CreatePlan::Existing(_) => panic!("nothing was there"),
    };
    assert_eq!(made.node_id, "new");
    assert_eq!((made.mode, made.event), (0o600, EventKind::NodeCreated));
    let there = node("f", Some("d"), "a.md", "docs/a.md", NodeKind::File);
    let e = create_node(
        "d",
        "a.md",
        "docs/a.md".to_string(),
        Some(there.clone()),
        NodeKind::File,
        0o600,
        true,
        "new".to_string(),
    )
    .unwrap_err();
    assert!(matches!(e, IndexError::AlreadyExistsAtPath { path } if path == "docs/a.md"));
    let kept = create_node(
        "d",
        "a.md",
        "docs/a.md".to_string(),
        Some(there),
        NodeKind::File,
        0o600,
        false,
        "new".to_string(),
    )
    .unwrap();
    assert!(matches!(kept, CreatePlan::Existing(n) if n.node_id == "f"));
}

#[test]
fn only_empty_directories_are_unlinked() {
    assert!(matches!(
        unlink("w", "docs", Some(docs()), true, None),
        Err(IndexError::DirectoryNotEmpty(_))
    ));
    let plan = unlink("w", "docs", Some(docs()), false, None).unwrap();
    assert_eq!((plan.node_id.as_str(), plan.event), ("d", EventKind::NodeDeleted));
    assert!(matches!(
        unlink("w", "docs", None, false, None),
        Err(IndexError::NodeNotFound { .. })
    ));
    assert!(matches!(
        unlink("w", "docs", Some(docs()), false, Some(9)),
        Err(IndexError::VersionConflict { .. })
    ));
}

#[test]
fn rename_if_version_matches() {
    let f = node("f", Some("d"), "a.md", "docs/a.md", NodeKind::File);
    let v = f.attrs.version;
    let (from, to) = rename_paths(&docs(), "d", "a.md", &docs(), "d", "b.md").unwrap();
    let plan = rename(
        "ws-rn",
        &from,
        to,
        "d",
        "b.md",
        Some(f),
        None,
        false,
        false,
        Some(v),
    )
    .expect("rename with matching if_version");
    assert_eq!(plan.node_id, "f");
    assert_eq!(plan.path, "docs/b.md");
    assert_eq!(plan.version, 2);
    assert!(plan.below.is_none());
    assert!(plan.replaced_node_id.is_none());
}

#[test]
fn directories_take_their_contents_along() {
    let plan = plan_rename_with_guess(
        "w",
        "docs",
        "notes".to_string(),
        "r",
        "notes",
        Some(docs()),
        None,
        false,
        false,
        None,
        "x".to_string(),
    )
    .unwrap();
    let below = plan.below.unwrap();
    assert_eq!(below.new_prefix, "notes/");
    assert_eq!(below.substr_from, 6);
    assert_eq!(below.like_pattern, "docs/%");
    assert!(plan.mime.is_none());
}

#[test]
fn renames_replace_only_when_asked() {
    let f = node("f", Some("d"), "a", "docs/a", NodeKind::File);
    let g = node("g", Some("d"), "b", "docs/b", NodeKind::File);
    let e = rename(
        "w",
        "docs/a",
        "docs/b".to_string(),
        "d",
        "b",
        Some(f.clone()),
        Some(g.clone()),
        false,
        false,
        None,
    )
    .unwrap_err();
    assert!(matches!(e, IndexError::AlreadyExistsAtPath { .. }));
    let plan = rename(
        "w",
        "docs/a",
        "docs/b".to_string(),
        "d",
        "b",
        Some(f),
        Some(g),
        false,
        true,
        None,
    )
    .unwrap();
    assert_eq!(plan.replaced_node_id.as_deref(), Some("g"));
    assert_eq!(plan.event, EventKind::NodeRenamed);
}

#[test]
fn attributes_are_patched() {
    let a = docs().attrs;
    let p = set_attrs(
        &a,
        AttrsPatch {
            mode: Some(0o600),
            mtime_unix_nano: None,
        },
    );
    assert_eq!((p.mode, p.mtime_unix_nano, p.version), (0o600, 0, 2));
    assert!(get_attrs_if_changed(a.clone(), 1).is_none());
    assert!(get_attrs_if_changed(a, 0).is_some());
}

#[test]
fn directories_are_listed_by_pages() {
    let page = read_dir_page(&docs(), "d", None, 0).unwrap();
    assert_eq!((page.offset, page.page_size), (0, 1));
    let page = read_dir_page(&docs(), "d", Some("5"), 5000).unwrap();
    assert_eq!((page.offset, page.page_size), (5, 1024));
    assert_eq!(next_dir_cursor(page, 1024), Some("1029".to_string()));
    let page = read_dir_page(&docs(), "d", None, 10).unwrap();
    assert_eq!(next_dir_cursor(page, 9), None);
    let f = node("f", Some("d"), "a", "docs/a", NodeKind::File);
    assert!(matches!(
        read_dir_page(&f, "f", None, 10),
        Err(IndexError::NotDirectory(_))
    ));
}

fn row(kind: &str, size: i64, version: i64) -> NodeRow {
    NodeRow {
        node_id: "n".to_string(),
        parent_node_id: None,
        name: String::new(),
        path: String::new(),
        kind: kind.to_string(),
        size,
        mtime_ns: 3,
        mode: 0o644,
        version,
        content_hash: String::new(),
        mime: String::new(),
    }
}

#[test]
fn rows_are_nodes() {
    let n = map_node_row(row("dir", 0, 4)).unwrap();
    assert_eq!((n.attrs.kind, n.attrs.version), (NodeKind::Dir, 4));
    assert!(matches!(
        map_node_row(row("link", 0, 4)),
        Err(RowError::UnknownWord { .. })
    ));
    assert!(matches!(
        map_node_row(row("file", -1, 4)),
        Err(RowError::OutOfRange { value: -1, .. })
    ));
}

#[test]
fn resolve_ref_redirect_chain_returns_final_node() {
    let start = RefResolution::start("w", "a").unwrap();
    let step = match start.step(None, Some("b".to_string())) {
        RefStep::Next(n) => n,
        other => panic!("unexpected {other:?}"),
    };
    assert_eq!(step.current, "b");
    let step = match step.step(None, Some("final".to_string())) {
        RefStep::Next(n) => n,
        other => panic!("unexpected {other:?}"),
    };
    let done = match step.step(Some("docs/final.md".to_string()), None) {
        RefStep::Done(d) => d,
        other => panic!("unexpected {other:?}"),
    };
    assert_eq!(done.path.as_deref(), Some("docs/final.md"));
    assert_eq!(done.redirect_to_node_id.as_deref(), Some("b"));
}

#[test]
fn resolve_ref_redirect_cycle_is_detected() {
    let start = RefResolution::start("w", "a").unwrap();
    let step = match start.step(None, Some("b".to_string())) {
        RefStep::Next(n) => n,
        other => panic!("unexpected {other:?}"),
    };
    let end = step.step(None, Some("a".to_string()));
    assert!(matches!(
        end,
        RefStep::Failed(IndexError::RedirectLoop { .. })
    ));
}

#[test]
fn long_chains_are_given_up() {
    let mut at = RefResolution::start("w", "n0").unwrap();
    let mut hops = 0;
    let error = loop {
        hops += 1;
        match at.step(None, Some(format!("n{hops}"))) {
            RefStep::Next(n) => at = n,
            RefStep::Failed(e) => break e,
            RefStep::Done(d) => panic!("unexpected {d:?}"),
        }
    };
    assert!(matches!(
        error,
        IndexError::RedirectLimitExceeded { max_hops: 16, .. }
    ));
    assert_eq!(hops, MAX_REDIRECT_HOPS);
}

#[test]
fn dangling_references_have_no_path() {
    let start = RefResolution::start("w", "a").unwrap();
    match start.step(None, None) {
        RefStep::Done(d) => assert!(d.path.is_none() && d.redirect_to_node_id.is_none()),
        other => panic!("unexpected {other:?}"),
    }
    assert!(set_redirect("a", "b", "renamed").is_ok());
    assert!(set_redirect(" ", "b", "renamed").is_err());
    let e = set_redirect("a", "b", " ").unwrap_err();
    assert_eq!(
        e.message(),
        "invalid node path: redirect reason cannot be empty"
    );
}

#[test]
fn errors_have_messages() {
    let w = || "w".to_string();
    let n = || "n".to_string();
    for (e, m) in [
        (IndexError::Sqlite("x".to_string()), "sqlite error: x"),
        (IndexError::WorkspaceAlreadyExists(w()), "workspace already exists: w"),
        (IndexError::WorkspaceNotFound(w()), "workspace not found: w"),
        (IndexError::InvalidNodeKind("k".to_string()), "invalid node kind in index: k"),
        (IndexError::ParentNotFound("p".to_string()), "parent node not found: p"),
        (
            IndexError::AlreadyExistsAtPath { path: "p".to_string() },
            "node already exists at path p",
        ),
        (
            IndexError::NodeIdNotFound { workspace_id: w(), node_id: n() },
            "node id not found in workspace=w, node_id=n",
        ),
        (IndexError::NotDirectory(n()), "node is not a directory: n"),
        (IndexError::DirectoryNotEmpty(n()), "node is not empty directory: n"),
        (IndexError::InvalidCursor, "invalid cursor"),
        (
            IndexError::NodeNotFound { workspace_id: w(), path: "p".to_string() },
            "node not found for workspace=w, path=p",
        ),
        (
            IndexError::NumericConversion,
            "numeric conversion failed for database value",
        ),
        (
            IndexError::EmbeddingCountMismatch { expected: 1, actual: 2 },
            "embedding vector count mismatch: expected=1, actual=2",
        ),
        (
            IndexError::InvalidHandleMode("m".to_string()),
            "invalid handle mode: m",
        ),
        (
            IndexError::InvalidIndexingJobStatus("s".to_string()),
            "invalid indexing job status: s",
        ),
        (
            IndexError::ConnectionPoolPoisoned("p".to_string()),
            "sqlite connection pool poisoned: p",
        ),
        (
            IndexError::ConnectionPoolExhausted,
            "sqlite connection pool exhausted",
        ),
        (
            IndexError::RedirectLimitExceeded { workspace_id: w(), node_id: n(), max_hops: 16 },
            "redirect chain exceeded max hops (16) for workspace=w, node_id=n",
        ),
        (
            IndexError::RedirectLoop { workspace_id: w(), node_id: n() },
            "redirect cycle detected for workspace=w, node_id=n",
        ),
        (
            IndexError::VersionConflict { expected: 1, found: 2 },
            "version precondition failed: expected 1, found 2",
        ),
        (IndexError::InvalidInput("i".to_string()), "invalid input: i"),
    ] {
        assert_eq!(e.message(), m);
    }
}

#[test]
fn markdown_files_are_put_in_sections() {
    let prepared = prepare_file_indexing("docs/note.md", b"# Plan\nx\n## Details\ny\n", 100, 100);
    let target = put_target("docs/note.md").unwrap();
    let plan = put_file_with_prepared(
        target,
        Some(docs()),
        None,
        "n".to_string(),
        None,
        21,
        prepared,
    )
    .unwrap();
    let names: Vec<&String> = plan.chunks.iter().map(|c: &IndexedChunk| &c.context_path).collect();
    assert_eq!(names, ["docs/note.md#Plan", "docs/note.md#Details"]);
    assert!(child_path(&root(), "r", "docs").unwrap() == "docs");
}

use scry::handle_content::{
    check_flush_mode, clamp_read_window, get_file, get_handle_content, merge_write, read_handle,
    truncate_handle, write_handle, HandleBody, ReadSpan, TruncateAction, WriteAction,
};
use scry::handles::{Access, FlushStart, HandleState, HandleTable, ReleaseStart};
use scry::index_error::IndexError;
use scry::model::{HandleMode, NodeAttrs, NodeKind, NodeRecord};
use scry::status::Code;

#[test]
fn writes_extend_and_overwrite() {
    assert_eq!(merge_write(b"hello", 1, b"EY"), b"hEYlo".to_vec());
    assert_eq!(merge_write(b"ab", 4, b"c"), b"ab\0\0c".to_vec());
    assert_eq!(clamp_read_window(b"hello", 1, 3), (b"ell".to_vec(), false));
    assert_eq!(clamp_read_window(b"hello", 3, 9), (b"lo".to_vec(), true));
    assert_eq!(clamp_read_window(b"hello", 9, 1), (Vec::new(), true));
}

fn node(kind: NodeKind) -> NodeRecord {
    NodeRecord {
        node_id: "n".to_string(),
        parent_node_id: Some("root".to_string()),
        name: "a.txt".to_string(),
        path: "a.txt".to_string(),
        attrs: NodeAttrs {
            kind,
            size: 3,
            mtime_unix_nano: 1,
            mode: 0o644,
            version: 4,
            content_hash: "h".to_string(),
            mime: "text/plain".to_string(),
        },
    }
}

#[test]
fn handles_are_opened_on_files_only() {
    let opened = get_handle_content("w", "n", Some(node(NodeKind::File))).expect("a file");
    assert_eq!(opened.path, "a.txt");
    assert_eq!(opened.attrs.version, 4);
    assert!(opened.content.is_empty());
    let dir = get_handle_content("w", "n", Some(node(NodeKind::Dir))).expect_err("a directory");
    assert!(matches!(dir, IndexError::InvalidHandleMode(m) if m == "node n is not a file"));
    let gone = get_handle_content("w", "n", None).expect_err("no node");
    assert!(matches!(gone, IndexError::NodeIdNotFound { .. }));
    assert!(matches!(get_file("w", "a.txt"), Err(IndexError::ContentNotInIndex)));
}

#[test]
fn modes_allow_reading_and_writing() {
    let there = || Some(node(NodeKind::File));
    assert!(write_handle("w", "n", there(), HandleMode::Read, b"a", 0, b"b").is_err());
    assert_eq!(
        write_handle("w", "n", there(), HandleMode::ReadWrite, b"a", 1, b"b").unwrap(),
        b"ab".to_vec()
    );
    assert!(matches!(
        write_handle("w", "n", None, HandleMode::ReadWrite, b"a", 1, b"b"),
        Err(IndexError::NodeIdNotFound { .. })
    ));
    assert_eq!(
        truncate_handle("w", "n", there(), HandleMode::Write, b"abc", 5).unwrap(),
        b"abc\0\0".to_vec()
    );
    assert!(truncate_handle("w", "n", there(), HandleMode::Read, b"abc", 1).is_err());
    assert!(truncate_handle("w", "n", None, HandleMode::Write, b"abc", 1).is_err());
    assert_eq!(
        read_handle("w", "n", there(), HandleMode::Read, b"abc", 1, 9).unwrap(),
        (b"bc".to_vec(), true)
    );
    assert!(matches!(
        read_handle("w", "n", None, HandleMode::Write, b"abc", 0, 1),
        Err(IndexError::InvalidHandleMode(_))
    ));
    assert!(matches!(
        read_handle("w", "n", None, HandleMode::Read, b"abc", 0, 1),
        Err(IndexError::NodeIdNotFound { .. })
    ));
    assert!(check_flush_mode(HandleMode::Read).is_err());
    assert!(check_flush_mode(HandleMode::Write).is_ok());
    assert!(HandleMode::ReadWrite.allows_read() && HandleMode::ReadWrite.allows_write());
    assert!(!HandleMode::Read.allows_write());
}

#[test]
fn bodies_spill_over_the_limit() {
    let mut b = HandleBody::empty();
    assert_eq!(b.write_action(0, 3, 10), WriteAction::InMemory);
    b.note_write(0, b"abc", 10);
    assert_eq!(b.len(), 3);
    assert_eq!(b.read_memory(1, 5), Some((b"bc".to_vec(), true)));
    assert_eq!(b.write_action(3, 8, 10), WriteAction::Spill);
    assert_eq!(b.truncate_action(2, 10), TruncateAction::InMemory);
    b.note_truncate(2);
    assert_eq!(b.len(), 2);
    assert_eq!(b.truncate_action(11, 10), TruncateAction::Spill);
    let mut d = HandleBody::spilled(20, "/tmp/x".to_string());
    assert_eq!(
        d.read_span(15, 10),
        ReadSpan {
            offset: 15,
            len: 5,
            eof: true
        }
    );
    assert!(d.read_memory(0, 1).is_none());
    assert!(matches!(d.write_action(18, 5, 10), WriteAction::OnDisk { .. }));
    d.note_write(18, b"12345", 10);
    assert_eq!(d.len(), 23);
    assert!(HandleBody::fits_in_memory(10, 10));
    assert!(!HandleBody::fits_in_memory(11, 10));
}

fn state(mode: HandleMode, body: &[u8]) -> HandleState {
    HandleState {
        workspace_id: "w".to_string(),
        node_id: "n".to_string(),
        mode,
        snapshot_version: 3,
        body: HandleBody::Memory(body.to_vec()),
        dirty: false,
        last_touched: 0,
        closing: false,
    }
}

fn memory(b: &HandleBody) -> Vec<u8> {
    match b {
        HandleBody::Memory(v) => v.clone(),
        HandleBody::Spilled { .. } => panic!("not in memory"),
    }
}

#[test]
fn requests_on_handles_are_checked() {
    let mut t = HandleTable::new();
    t.open("h".to_string(), state(HandleMode::Read, b"abc"));
    let e = t.begin("x", "w", Access::Any).unwrap_err();
    assert_eq!((e.code, e.message.as_str()), (Code::NotFound, "handle_id not found"));
    let e = t.begin("h", "v", Access::Any).unwrap_err();
    assert_eq!(e.code, Code::PermissionDenied);
    let e = t.begin("h", "w", Access::Write).unwrap_err();
    assert_eq!(e.message, "handle is read-only");
    let body = t.begin("h", "w", Access::Read).unwrap();
    assert_eq!(memory(&body), b"abc".to_vec());
    t.finish_read("h", body, true, 5).unwrap();
    assert_eq!(t.get("h").unwrap().last_touched, 5);
    let mut wo = HandleTable::new();
    wo.open("h".to_string(), state(HandleMode::Write, b""));
    assert_eq!(
        wo.begin("h", "w", Access::Read).unwrap_err().message,
        "handle is write-only"
    );
}

#[test]
fn dirty_handles_are_flushed() {
    let mut t = HandleTable::new();
    t.open("h".to_string(), state(HandleMode::ReadWrite, b""));
    assert!(matches!(
        t.begin_flush("h", "w", 1).unwrap(),
        FlushStart::Clean { .. }
    ));
    let mut body = t.begin("h", "w", Access::Write).unwrap();
    body.note_write(0, b"new", 100);
    t.finish_change("h", body, true, 2);
    let job = match t.begin_flush("h", "w", 3).unwrap() {
        FlushStart::Dirty(j) => j,
        FlushStart::Clean { .. } => panic!("it is dirty"),
    };
    assert_eq!(memory(&job.body), b"new".to_vec());
    assert_eq!(job.snapshot_version, 3);
    let e = t.begin("h", "w", Access::Any).unwrap_err();
    assert_eq!(e.message, "handle is currently closing");
    t.restore("h", job.body, 4);
    assert!(t.get("h").unwrap().dirty);
    assert!(!t.get("h").unwrap().closing);
    let job = match t.begin_flush("h", "w", 5).unwrap() {
        FlushStart::Dirty(j) => j,
        FlushStart::Clean { .. } => panic!("it is dirty"),
    };
    t.finish_flush("h", 4, job.body, 6);
    assert!(!t.get("h").unwrap().dirty);
    assert_eq!(t.get("h").unwrap().snapshot_version, 4);
}

#[test]
fn handles_are_released() {
    let mut t = HandleTable::new();
    t.open("h".to_string(), state(HandleMode::ReadWrite, b""));
    let v = match t.begin_release("h", "w", 1).unwrap() {
        ReleaseStart::Clean { snapshot_version } => snapshot_version,
        ReleaseStart::Dirty(_) => panic!("it is clean"),
    };
    assert_eq!(t.finish_clean_release("h", v).unwrap(), 3);
    assert_eq!(t.len(), 0);
    assert_eq!(
        t.finish_clean_release("h", v).unwrap_err().code,
        Code::NotFound
    );
}

#[test]
fn idle_handles_are_swept() {
    let mut t = HandleTable::new();
    t.open("clean".to_string(), state(HandleMode::Read, b""));
    let mut dirty = state(HandleMode::Write, b"kept");
    dirty.dirty = true;
    t.open("dirty".to_string(), dirty);
    let mut fresh = state(HandleMode::Read, b"");
    fresh.last_touched = 95;
    t.open("fresh".to_string(), fresh);
    let (removed, expired) = t.sweep_idle(100, 10);
    assert_eq!(removed, 1);
    assert_eq!(expired.len(), 1);
    assert_eq!(expired[0].handle_id, "dirty");
    assert_eq!(memory(&expired[0].job.body), b"kept".to_vec());
    assert_eq!(t.len(), 2);
    let (removed, expired) = t.sweep_idle(100, 10);
    assert_eq!((removed, expired.len()), (0, 0));
    t.reopen_expired("dirty", 200);
    let (_, expired) = t.sweep_idle(300, 10);
    assert_eq!(expired.len(), 1);
    assert!(t.finish_expired("dirty"));
    assert!(!t.finish_expired("dirty"));
}

#[test]
fn a_sweep_tells_what_it_took() {
    let mut t = HandleTable::new();
    for i in 0..6u64 {
        let mut s = state(HandleMode::Write, b"x");
        s.dirty = i % 2 == 0;
        s.last_touched = if i == 5 { 90 } else { 0 };
        t.open(format!("h{i}"), s);
    }
    let before = t.len();
    let (removed, expired) = t.sweep_idle(100, 20);
    assert_eq!((before, t.len(), removed), (6, 4, 2));
    let mut ids: Vec<String> = expired.iter().map(|e| e.handle_id.clone()).collect();
    ids.sort();
    ids.dedup();
    assert_eq!(ids, vec!["h0", "h2", "h4"]);
    assert!(ids.iter().all(|id| t.get(id).unwrap().closing));
    assert!(t.get("h1").is_none());
    assert!(!t.get("h5").unwrap().closing);
}

#[test]
fn spilled_files_are_known() {
    let mut t = HandleTable::new();
    t.open("m".to_string(), state(HandleMode::Read, b"abc"));
    for name in ["p", "q"] {
        let mut s = state(HandleMode::Read, b"");
        s.body = HandleBody::Spilled { len: 7, path: format!("/spill/{name}") };
        t.open(name.to_string(), s);
    }
    assert_eq!(t.spilled_files(), vec!["/spill/p", "/spill/q"]);
    assert!(t.get("none").is_none());
}

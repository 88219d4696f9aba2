use scry::content::{
    copy_piece, create_content, rename_content, unlink_content, ContentAction, FileStream,
};
use scry::model::NodeKind;
use scry::storage::{
    content_file, db_path_for_workspace, temp_file_name, ContentStore, JuiceFsContentStore,
    LocalFsContentStore, StorageError,
};

#[test]
fn local_store_builds_workspace_path() {
    let store = LocalFsContentStore::new("/tmp/content");
    let path = store.workspace_root("ws-1").expect("path");
    assert_eq!(path, "/tmp/content/ws-1");
}

#[test]
fn stores_refuse_blank_workspaces() {
    let local = LocalFsContentStore::new("/tmp/content");
    let juice = JuiceFsContentStore::new("/mnt/jfs/");
    assert_eq!(local.workspace_root("  "), Err(StorageError::EmptyWorkspace));
    assert_eq!(juice.workspace_root(""), Err(StorageError::EmptyWorkspace));
    assert_eq!(
        StorageError::EmptyWorkspace.message(),
        "workspace id cannot be empty"
    );
    assert_eq!(juice.workspace_root("w"), Ok("/mnt/jfs/w".to_string()));
    assert!(local.supports_fanotify());
    assert!(juice.supports_fanotify());
}

#[test]
fn files_have_places() {
    assert_eq!(content_file("/c/ws", "//docs/a.md"), "/c/ws/docs/a.md");
    assert_eq!(content_file("/c/ws", "a.md"), "/c/ws/a.md");
    assert_eq!(temp_file_name("/c/ws/docs/a.md", "u1"), ".a.md.tmp.u1");
    assert_eq!(temp_file_name("/", "u1"), ".content.tmp.u1");
    assert_eq!(temp_file_name("/c/..", "u1"), ".content.tmp.u1");
    assert_eq!(
        db_path_for_workspace("/i", " ws ").unwrap(),
        "/i/ws/index.db"
    );
    assert_eq!(
        db_path_for_workspace("/i", " ").unwrap_err().message(),
        "invalid node path: workspace_id cannot be empty"
    );
}

#[test]
fn content_follows_the_tree() {
    assert_eq!(
        create_content("/r", NodeKind::File, "d/a"),
        vec![
            ContentAction::MakeParent("/r/d/a".to_string()),
            ContentAction::WriteEmpty("/r/d/a".to_string()),
        ]
    );
    assert_eq!(
        create_content("/r", NodeKind::Dir, "d"),
        vec![ContentAction::MakeDir("/r/d".to_string())]
    );
    assert_eq!(
        unlink_content("/r", NodeKind::Dir, "d"),
        ContentAction::RemoveDir {
            path: "/r/d".to_string(),
            overwritten: false
        }
    );
    assert_eq!(
        rename_content("/r", "a", "b", &None),
        vec![
            ContentAction::MakeParent("/r/b".to_string()),
            ContentAction::Rename {
                from: "/r/a".to_string(),
                to: "/r/b".to_string()
            },
        ]
    );
    let over = rename_content("/r", "a", "b", &Some((NodeKind::File, "b".to_string())));
    assert_eq!(
        over[0],
        ContentAction::RemoveFile {
            path: "/r/b".to_string(),
            overwritten: true
        }
    );
    assert_eq!(over.len(), 3);
}

#[test]
fn failures_say_what_failed() {
    let p = "/r/a".to_string();
    assert_eq!(
        ContentAction::MakeParent(p.clone()).failure("/r", "no"),
        "failed creating parent directory /r: no"
    );
    assert_eq!(
        ContentAction::MakeDir(p.clone()).failure("/r/a", "no"),
        "failed creating content directory /r/a: no"
    );
    assert_eq!(
        ContentAction::WriteEmpty(p.clone()).failure("/r/a", "no"),
        "failed creating content file /r/a: no"
    );
    for (overwritten, dir, file) in [
        (
            false,
            "failed removing content directory /r/a: no",
            "failed removing content file /r/a: no",
        ),
        (
            true,
            "failed removing overwrite directory /r/a: no",
            "failed removing overwrite file /r/a: no",
        ),
    ] {
        let d = ContentAction::RemoveDir {
            path: p.clone(),
            overwritten,
        };
        assert_eq!(d.failure("/r/a", "no"), dir);
        let f = ContentAction::RemoveFile {
            path: p.clone(),
            overwritten,
        };
        assert_eq!(f.failure("/r/a", "no"), file);
    }
    let r = ContentAction::Rename {
        from: p,
        to: "/r/b".to_string(),
    };
    assert_eq!(
        r.failure("/r/a", "no"),
        "failed renaming content /r/a -> /r/b: no"
    );
}

#[test]
fn copies_go_piece_by_piece() {
    assert_eq!(copy_piece(10, 1), 10);
    assert_eq!(copy_piece(10000, 1), 8192);
    assert_eq!(copy_piece(100000, 65536), 65536);
    let mut left = 100_000u64;
    let mut pieces = Vec::new();
    while left > 0 {
        let n = copy_piece(left, 30000);
        pieces.push(n);
        left -= n as u64;
    }
    assert_eq!(pieces, vec![30000, 30000, 30000, 10000]);
}

#[test]
fn streams_mark_their_last_piece() {
    let mut s = FileStream::new();
    assert_eq!(s.feed(b"ab".to_vec()), None);
    let first = s.feed(b"c".to_vec()).unwrap();
    assert_eq!((first.data, first.eof), (b"ab".to_vec(), false));
    let last = s.feed(Vec::new()).unwrap();
    assert_eq!((last.data, last.eof), (b"c".to_vec(), true));
    assert!(s.done);
    let mut empty = FileStream::new();
    let only = empty.feed(Vec::new()).unwrap();
    assert_eq!((only.data, only.eof), (Vec::new(), true));
}

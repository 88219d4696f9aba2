use scry::mount_attrs::{
    handle_mode_from_flags, proto_attrs_to_fuse, request_offset, status_to_errno,
    time_or_now_to_nanos, written_count, AccessFlags, Errno, FileType,
};
use scry::mount_fs::{
    check_root, mtime_to_set, root_failure_hint, row_cookie, start_row, AttrChange, DirStep,
    RemoteEntry, ScryFuseFs, SetAttrAction, SetAttrEvent, ROOT_INO,
};
use scry::mount_options::{
    auth_token_path, bearer_text, load_auth_token, mount_endpoint, mount_endpoint_from,
    mount_options, mount_uri, Cli, MountOption,
};
use scry::rpc::{ProtoAttrs, ProtoHandleMode, ProtoNodeKind};
use scry::status::Code;

fn cli() -> Cli {
    Cli {
        server_addr: "127.0.0.1:50051".to_string(),
        tls: false,
        ca_cert: None,
        client_cert: None,
        client_key: None,
        auth_token: None,
        auth_token_file: None,
        workspace_id: "ws".to_string(),
        mountpoint: "/tmp/mnt".to_string(),
        read_only: false,
        allow_other: false,
        user_mount: false,
    }
}

#[test]
fn cli_validate_rejects_token_conflict() {
    let cli = Cli {
        auth_token: Some("token-a".to_string()),
        auth_token_file: Some("/tmp/token.txt".to_string()),
        ..cli()
    };
    let err = cli
        .validate()
        .expect_err("validate should reject dual token inputs");
    assert!(err.contains("either --auth-token or --auth-token-file"));
}

#[test]
fn cli_validate_rejects_tls_flags_without_tls() {
    let cli = Cli {
        ca_cert: Some("/tmp/ca.pem".to_string()),
        ..cli()
    };
    let err = cli
        .validate()
        .expect_err("validate should reject TLS options without --tls");
    assert!(err.contains("require --tls"));
}

#[test]
fn load_auth_token_prefers_inline_token() {
    let cli = Cli {
        auth_token: Some("  abc-token  ".to_string()),
        ..cli()
    };
    let token = load_auth_token(&cli, "").expect("token should load");
    assert_eq!(token.as_deref(), Some("abc-token"));
}

#[test]
fn certificates_go_with_keys() {
    let half = Cli {
        tls: true,
        client_cert: Some("c".to_string()),
        ..cli()
    };
    assert_eq!(
        half.validate(),
        Err("--client-cert and --client-key must be set together".to_string())
    );
    let whole = Cli {
        client_key: Some("k".to_string()),
        ..half
    };
    assert_eq!(whole.validate(), Ok(()));
    assert_eq!(cli().validate(), Ok(()));
}

#[test]
fn tokens_come_from_files() {
    let from_file = Cli {
        auth_token_file: Some("/t".to_string()),
        ..cli()
    };
    assert_eq!(auth_token_path(&from_file), Some("/t"));
    assert_eq!(auth_token_path(&cli()), None);
    assert_eq!(
        load_auth_token(&from_file, " tok\n"),
        Ok(Some("tok".to_string()))
    );
    assert_eq!(
        load_auth_token(&from_file, " \n"),
        Err("auth token file /t is empty".to_string())
    );
    let empty = Cli {
        auth_token: Some(" ".to_string()),
        ..cli()
    };
    assert_eq!(
        load_auth_token(&empty, ""),
        Err("--auth-token cannot be empty".to_string())
    );
    assert_eq!(load_auth_token(&cli(), ""), Ok(None));
    assert_eq!(bearer_text(" tok "), Ok("Bearer tok".to_string()));
    assert_eq!(
        bearer_text("a\u{7f}b"),
        Err("invalid bearer token metadata".to_string())
    );
}

#[test]
fn a_mount_connects_to_a_uri() {
    assert_eq!(mount_uri("127.0.0.1:50051", false), "http://127.0.0.1:50051");
    assert_eq!(mount_uri("127.0.0.1:50051", true), "https://127.0.0.1:50051");
    assert_eq!(
        mount_endpoint("127.0.0.1:50051", true),
        Ok("https://127.0.0.1:50051/".to_string())
    );
    let invalid = Err("invalid server address".to_string());
    assert_eq!(mount_endpoint("a b", false), invalid);
    assert_eq!(mount_endpoint_from(None), invalid);
    assert_eq!(
        mount_endpoint_from(Some((Some("http".to_string()), "u".to_string()))),
        Ok("u".to_string())
    );
}

#[test]
fn mounts_have_options() {
    assert_eq!(
        mount_options(true, true, false),
        vec![
            MountOption::FsName,
            MountOption::DefaultPermissions,
            MountOption::ReadOnly,
            MountOption::AllowOther
        ]
    );
    assert_eq!(mount_options(false, false, true), vec![MountOption::FsName]);
}

#[test]
fn codes_become_error_numbers() {
    for (code, errno) in [
        (Code::Cancelled, Errno::Interrupted),
        (Code::NotFound, Errno::NoEntry),
        (Code::AlreadyExists, Errno::Exists),
        (Code::PermissionDenied, Errno::Access),
        (Code::Unauthenticated, Errno::Access),
        (Code::InvalidArgument, Errno::Invalid),
        (Code::DeadlineExceeded, Errno::TimedOut),
        (Code::ResourceExhausted, Errno::NoSpace),
        (Code::FailedPrecondition, Errno::Busy),
        (Code::Aborted, Errno::Busy),
        (Code::OutOfRange, Errno::Overflow),
        (Code::Unimplemented, Errno::NotImplemented),
        (Code::Unavailable, Errno::Again),
        (Code::Unknown, Errno::Io),
        (Code::Internal, Errno::Io),
        (Code::DataLoss, Errno::Io),
    ] {
        assert_eq!(status_to_errno(code), errno);
    }
}

#[test]
fn flags_become_modes() {
    let platform = AccessFlags {
        mask: libc::O_ACCMODE,
        write_only: libc::O_WRONLY,
        read_write: libc::O_RDWR,
    };
    assert_eq!(
        handle_mode_from_flags(libc::O_RDONLY | libc::O_CREAT, platform),
        ProtoHandleMode::Read
    );
    assert_eq!(
        handle_mode_from_flags(libc::O_WRONLY | libc::O_TRUNC, platform),
        ProtoHandleMode::Write
    );
    assert_eq!(
        handle_mode_from_flags(libc::O_RDWR, platform),
        ProtoHandleMode::ReadWrite
    );
}

#[test]
fn numbers_for_the_kernel() {
    assert_eq!(request_offset(-5), 0);
    assert_eq!(request_offset(5), 5);
    assert_eq!(written_count(7), 7);
    assert_eq!(written_count(u64::MAX), u32::MAX);
    assert_eq!(time_or_now_to_nanos(Some(5)), Some(5));
    assert_eq!(time_or_now_to_nanos(None), None);
    assert_eq!(time_or_now_to_nanos(Some(u128::MAX)), None);
    assert_eq!(mtime_to_set(None), None);
    assert_eq!(mtime_to_set(Some(None)), Some(0));
    assert_eq!(mtime_to_set(Some(Some(9))), Some(9));
    assert_eq!(start_row(-1), 0);
    assert_eq!(start_row(3), 3);
    assert_eq!(row_cookie(0), 1);
}

fn attrs(kind: ProtoNodeKind, size: u64) -> ProtoAttrs {
    ProtoAttrs {
        kind,
        size,
        mtime_unix_nano: 1,
        mode: 0o100644,
        version: 1,
        content_hash: String::new(),
        mime: String::new(),
    }
}

#[test]
fn attributes_for_the_kernel() {
    let a = proto_attrs_to_fuse(9, &attrs(ProtoNodeKind::File, 513));
    assert_eq!((a.ino, a.size, a.blocks, a.times), (9, 513, 2, 1));
    assert_eq!(a.kind, FileType::RegularFile);
    assert_eq!((a.perm, a.nlink, a.blksize), (0o644, 1, 4096));
    let mut d = attrs(ProtoNodeKind::Dir, 0);
    d.mtime_unix_nano = -4;
    let a = proto_attrs_to_fuse(1, &d);
    assert_eq!((a.blocks, a.times), (0, 0));
    assert_eq!(a.kind, FileType::Directory);
    assert_eq!(
        proto_attrs_to_fuse(1, &attrs(ProtoNodeKind::Unspecified, u64::MAX)).blocks,
        u64::MAX / 512
    );
}

fn mounted() -> ScryFuseFs {
    let mut fs = ScryFuseFs::new("ws");
    fs.bootstrap_root("root", Some(&attrs(ProtoNodeKind::Dir, 0)))
        .unwrap();
    fs
}

#[test]
fn mounts_need_a_root() {
    assert_eq!(check_root(true, "root"), Ok(()));
    assert_eq!(check_root(false, "root"), Err("workspace root does not exist"));
    assert_eq!(check_root(true, ""), Err("workspace root does not exist"));
    assert!(root_failure_hint(Code::Unauthenticated)
        .unwrap()
        .contains("--auth-token-file"));
    assert_eq!(root_failure_hint(Code::NotFound), None);
    let mut fs = ScryFuseFs::new("ws");
    assert_eq!(
        fs.bootstrap_root("root", None),
        Err("missing root attrs in response")
    );
    assert!(fs.entry(ROOT_INO).is_none());
    let fs = mounted();
    let root = fs.entry(ROOT_INO).unwrap();
    assert_eq!((root.node_id.as_str(), root.parent_ino), ("root", 1));
}

#[test]
fn nodes_keep_their_numbers() {
    let mut fs = mounted();
    let a = fs
        .finish_lookup("ws", 1, "a", Some(&attrs(ProtoNodeKind::File, 1)))
        .unwrap();
    let b = fs
        .finish_lookup("ws", 1, "b", Some(&attrs(ProtoNodeKind::File, 2)))
        .unwrap();
    let again = fs
        .finish_lookup("ws", 1, "a", Some(&attrs(ProtoNodeKind::File, 3)))
        .unwrap();
    assert_eq!((a.ino, b.ino, again.ino), (2, 3, 2));
    assert_eq!(fs.entry(2).unwrap().attr.size, 3);
    assert_eq!(fs.finish_lookup("ws", 1, "c", None), Err(Errno::Io));
    assert_eq!(fs.known_entry(99).unwrap_err(), Errno::NoEntry);
}

#[test]
fn directories_are_read_by_pages() {
    let mut fs = mounted();
    let mut cache = fs.take_dir_cache(1).unwrap();
    assert_eq!(cache.step(0), DirStep::Row(0));
    assert_eq!(cache.step(2), DirStep::Fetch);
    let page = vec![
        RemoteEntry {
            name: "a".to_string(),
            node_id: "na".to_string(),
            attrs: Some(attrs(ProtoNodeKind::File, 1)),
        },
        RemoteEntry {
            name: "lost".to_string(),
            node_id: "nl".to_string(),
            attrs: None,
        },
    ];
    fs.add_dir_page("ws", 1, &mut cache, page, "256");
    assert!(!cache.complete);
    assert_eq!(cache.next_cursor, "256");
    fs.add_dir_page("ws", 1, &mut cache, Vec::new(), "");
    assert!(cache.complete);
    let names: Vec<&str> = cache.rows.iter().map(|r| r.name.as_str()).collect();
    assert_eq!(names, vec![".", "..", "a"]);
    assert_eq!(cache.rows[2].ino, 2);
    assert_eq!(cache.step(3), DirStep::End);
    fs.keep_dir_cache(1, cache);
    assert_eq!(fs.take_dir_cache(1).unwrap().rows.len(), 3);
    assert_eq!(fs.take_dir_cache(1).unwrap().rows.len(), 2);
    assert!(fs.take_dir_cache(7).is_err());
}

#[test]
fn a_repeated_cursor_ends_a_directory() {
    let mut fs = mounted();
    let mut cache = fs.take_dir_cache(1).unwrap();
    fs.add_dir_page("ws", 1, &mut cache, Vec::new(), "x");
    assert!(!cache.complete);
    fs.add_dir_page("ws", 1, &mut cache, Vec::new(), "x");
    assert!(cache.complete);
}

#[test]
fn files_are_made_opened_and_released() {
    let mut fs = mounted();
    let cache = fs.take_dir_cache(1).unwrap();
    fs.keep_dir_cache(1, cache);
    let ino = fs
        .finish_create("ws", 1, "n", Some(&attrs(ProtoNodeKind::File, 0)))
        .unwrap();
    assert!(fs.dir_cache.is_empty());
    let (attr, fh) = fs.finish_create_open("ws", ino, "h1").unwrap();
    assert_eq!((attr.ino, fh), (ino, 1));
    assert_eq!(fs.handle(1).unwrap().handle_id, "h1");
    assert_eq!(fs.finish_open("ws", "h2"), 2);
    fs.release_handle(1);
    assert_eq!(fs.handle(1).unwrap_err(), Errno::NoEntry);
    assert_eq!(
        fs.finish_mkdir("ws", 1, "d", Some(&attrs(ProtoNodeKind::Dir, 0)))
            .unwrap()
            .ino,
        3
    );
    assert_eq!(fs.finish_mkdir("ws", 1, "d", None), Err(Errno::Io));
}

#[test]
fn moved_nodes_have_a_new_parent() {
    let mut fs = mounted();
    let d = fs
        .finish_mkdir("ws", 1, "d", Some(&attrs(ProtoNodeKind::Dir, 0)))
        .unwrap();
    let f = fs
        .finish_lookup("ws", 1, "f", Some(&attrs(ProtoNodeKind::File, 0)))
        .unwrap();
    for ino in [1, d.ino, f.ino] {
        let cache = fs.take_dir_cache(ino).unwrap();
        fs.keep_dir_cache(ino, cache);
    }
    fs.finish_rename("f", 1, d.ino);
    assert_eq!(fs.entry(f.ino).unwrap().parent_ino, d.ino);
    assert!(fs.dir_cache.is_empty());
}

fn change(size: Option<u64>, mode: Option<u32>) -> AttrChange {
    AttrChange {
        ino: 1,
        size,
        mode,
        mtime: None,
    }
}

#[test]
fn attributes_change_step_by_step() {
    let mut fs = mounted();
    let c = change(Some(5), Some(0o600));
    let a = fs.setattr(&c);
    assert!(matches!(a, SetAttrAction::Open { mode: ProtoHandleMode::Write }));
    let a = fs.setattr_next(&c, a, SetAttrEvent::Opened("h".to_string()));
    assert!(matches!(&a, SetAttrAction::Truncate { handle_id, size: 5 } if handle_id == "h"));
    let a = fs.setattr_next(&c, a, SetAttrEvent::Done);
    assert!(matches!(&a, SetAttrAction::Flush { handle_id } if handle_id == "h"));
    let a = fs.setattr_next(&c, a, SetAttrEvent::Done);
    assert!(matches!(&a, SetAttrAction::Release { handle_id } if handle_id == "h"));
    let a = fs.setattr_next(&c, a, SetAttrEvent::Failed(Code::Internal));
    assert!(matches!(
        a,
        SetAttrAction::SetAttrs {
            has_mode: true,
            mode: 0o600,
            has_mtime: false,
            mtime: 0
        }
    ));
    let a = fs.setattr_next(&c, a, SetAttrEvent::Done);
    assert!(matches!(a, SetAttrAction::GetAttrs));
    let told = SetAttrEvent::Attrs(Some(attrs(ProtoNodeKind::Dir, 77)));
    let a = fs.setattr_next(&c, a, told);
    assert!(matches!(a, SetAttrAction::Reply(attr) if attr.size == 77 && attr.ino == 1));
    assert_eq!(fs.entry(1).unwrap().attr.size, 77);
}

#[test]
fn changes_of_attributes_fail() {
    let mut fs = mounted();
    let c = change(Some(5), None);
    let open = fs.setattr(&c);
    let a = fs.setattr_next(&c, open, SetAttrEvent::Failed(Code::NotFound));
    assert!(matches!(a, SetAttrAction::Fail(Errno::NoEntry)));
    let c = change(None, None);
    let get = fs.setattr(&c);
    assert!(matches!(get, SetAttrAction::GetAttrs));
    let a = fs.setattr_next(&c, get, SetAttrEvent::Attrs(None));
    assert!(matches!(a, SetAttrAction::Fail(Errno::Io)));
    let lost = AttrChange { ino: 50, ..c };
    assert!(matches!(
        fs.setattr(&lost),
        SetAttrAction::Fail(Errno::NoEntry)
    ));
    assert!(fs.finish_getattr(1, None).is_err());
    assert_eq!(
        fs.finish_getattr(1, Some(&attrs(ProtoNodeKind::Dir, 3)))
            .unwrap()
            .size,
        3
    );
}

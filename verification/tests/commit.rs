use scry::commit::{
    commit_failure, removes_temp_on_failure, CommitSource, CommitStep, ContentCommit, FlushFault,
};
use scry::handle_content::HandleBody;
use scry::model::{EventKind, EventRecord};
use scry::rpc::SubscribeFilter;
use scry::status::Code;
use scry::subscription::{Notification, Subscription, SubscriptionStep};

fn steps(mut commit: ContentCommit) -> Vec<CommitStep> {
    let mut out = Vec::new();
    while commit.step() != CommitStep::Done {
        out.push(commit.step());
        commit.advance();
    }
    out
}

#[test]
fn bytes_are_written_beside_the_file_first() {
    assert_eq!(
        steps(ContentCommit::new(CommitSource::Bytes, 8192)),
        vec![
            CommitStep::MakeParent,
            CommitStep::WriteTemp,
            CommitStep::Rename,
            CommitStep::OpenFile,
            CommitStep::SyncFile,
        ]
    );
}

#[test]
fn an_open_handle_streams_itself() {
    assert_eq!(
        steps(ContentCommit::new(CommitSource::Stream, 8192)),
        vec![
            CommitStep::MakeParent,
            CommitStep::OpenTemp,
            CommitStep::StreamTemp,
            CommitStep::Rename,
            CommitStep::OpenFile,
            CommitStep::SyncFile,
        ]
    );
}

#[test]
fn a_snapshot_in_memory_is_synced_before_it_gets_its_name() {
    let body = HandleBody::Memory(b"abc".to_vec());
    assert_eq!(
        steps(ContentCommit::of_snapshot(&body, 8192)),
        vec![
            CommitStep::MakeParent,
            CommitStep::OpenTemp,
            CommitStep::WriteTemp,
            CommitStep::SyncTemp,
            CommitStep::Rename,
            CommitStep::OpenFile,
            CommitStep::SyncFile,
        ]
    );
}

#[test]
fn a_spilled_snapshot_is_copied_whole() {
    let body = HandleBody::spilled(20000, "/tmp/s".to_string());
    let all = steps(ContentCommit::of_snapshot(&body, 8192));
    assert_eq!(
        all,
        vec![
            CommitStep::MakeParent,
            CommitStep::OpenTemp,
            CommitStep::OpenSpilled,
            CommitStep::Copy { bytes: 8192 },
            CommitStep::Copy { bytes: 8192 },
            CommitStep::Copy { bytes: 3616 },
            CommitStep::SyncTemp,
            CommitStep::Rename,
            CommitStep::OpenFile,
            CommitStep::SyncFile,
        ]
    );
    let copied: usize = all
        .iter()
        .map(|s| match s {
            CommitStep::Copy { bytes } => *bytes,
            _ => 0,
        })
        .sum();
    assert_eq!(copied, 20000);
    let empty = steps(ContentCommit::of_snapshot(
        &HandleBody::spilled(0, "/tmp/s".to_string()),
        8192,
    ));
    assert!(!empty.iter().any(|s| matches!(s, CommitStep::Copy { .. })));
}

#[test]
fn failures_of_a_commit_are_told() {
    let told = |step, reading| commit_failure(step, reading, "/p", "no space").message;
    assert_eq!(
        told(CommitStep::MakeParent, false),
        "failed creating parent directory /p: no space"
    );
    assert_eq!(
        told(CommitStep::OpenTemp, false),
        "failed opening temp content file /p: no space"
    );
    assert_eq!(
        told(CommitStep::WriteTemp, false),
        "failed writing temp content file /p: no space"
    );
    assert_eq!(
        told(CommitStep::StreamTemp, false),
        "failed streaming handle content to /p: no space"
    );
    assert_eq!(
        told(CommitStep::OpenSpilled, false),
        "failed opening spilled handle file /p: no space"
    );
    assert_eq!(
        told(CommitStep::Copy { bytes: 1 }, true),
        "failed reading spilled handle file /p: no space"
    );
    assert_eq!(
        told(CommitStep::Copy { bytes: 1 }, false),
        "failed writing temp content file /p: no space"
    );
    assert_eq!(
        told(CommitStep::SyncTemp, false),
        "failed fsync temp content file /p: no space"
    );
    assert_eq!(
        told(CommitStep::OpenFile, false),
        "failed opening content file for fsync /p: no space"
    );
    assert_eq!(
        told(CommitStep::SyncFile, false),
        "failed fsync content file /p: no space"
    );
    let status = commit_failure(CommitStep::Rename, false, "/p", "no space");
    assert_eq!(status.code, Code::Internal);
    assert_eq!(status.message, "failed committing content file /p: no space");
}

#[test]
fn only_a_failed_rename_removes_the_temporary_file() {
    assert!(removes_temp_on_failure(CommitStep::Rename));
    assert!(!removes_temp_on_failure(CommitStep::WriteTemp));
    assert!(!removes_temp_on_failure(CommitStep::SyncFile));
}

#[test]
fn faults_of_a_flush_are_told() {
    let task = FlushFault::Task { error: "gone".to_string() }.status();
    assert_eq!(task.code, Code::Internal);
    assert_eq!(task.message, "flush indexing join failed: gone");
    let index = FlushFault::Index { error: "utf8 tail".to_string() }.status();
    assert_eq!(index.message, "index prep from committed file: utf8 tail");
    let reload = FlushFault::Reload { path: "/p".to_string(), error: "gone".to_string() }.status();
    assert_eq!(reload.message, "failed reloading handle body from /p: gone");
}

fn event(id: u64, kind: EventKind) -> EventRecord {
    EventRecord {
        cursor: id.to_string(),
        created_at_unix_nano: 1,
        kind,
        workspace_id: "w".to_string(),
        node_id: "n".to_string(),
        payload_json: "{}".to_string(),
        path: "p".to_string(),
    }
}

fn everything() -> SubscribeFilter {
    SubscribeFilter {
        path_prefix: Vec::new(),
        node_ids: Vec::new(),
        kinds: Vec::new(),
        include_index_events: true,
    }
}

fn ids(events: &[EventRecord]) -> Vec<String> {
    events.iter().map(|e| e.cursor.clone()).collect()
}

#[test]
fn a_subscription_reads_before_it_waits() {
    let mut s = Subscription::new(3, everything());
    assert_eq!(s.step, SubscriptionStep::List { limit: 256 });
    let sent = s.take_listed(vec![
        event(4, EventKind::NodeCreated),
        event(6, EventKind::NodeModified),
    ]);
    assert_eq!(ids(&sent), vec!["4", "6"]);
    assert_eq!(s.cursor, Some(6));
    assert_eq!(s.step, SubscriptionStep::List { limit: 256 });
    assert!(s.take_listed(Vec::new()).is_empty());
    assert_eq!(s.step, SubscriptionStep::Wait);
}

#[test]
fn a_notification_is_sent_once() {
    let mut s = Subscription::new(6, everything());
    s.take_listed(Vec::new());
    let sent = s.take_notification(Notification::Event(event(7, EventKind::NodeModified)));
    assert_eq!(sent.map(|e| e.cursor), Some("7".to_string()));
    assert_eq!(s.cursor, Some(7));
    s.take_listed(Vec::new());
    let again = s.take_notification(Notification::Event(event(7, EventKind::NodeModified)));
    assert!(again.is_none());
    assert_eq!(s.cursor, Some(7));
}

#[test]
fn a_subscription_that_fell_behind_catches_up() {
    let mut s = Subscription::new(1, everything());
    s.take_listed(Vec::new());
    assert!(s.take_notification(Notification::Lagged).is_none());
    assert_eq!(s.step, SubscriptionStep::List { limit: 1024 });
    assert!(s.take_listed(Vec::new()).is_empty());
    assert_eq!(s.step, SubscriptionStep::List { limit: 256 });
    s.take_listed(Vec::new());
    assert!(s.take_notification(Notification::Closed).is_none());
    assert_eq!(s.step, SubscriptionStep::End);
}

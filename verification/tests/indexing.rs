use scry::credits::EmbeddingCharge;
use scry::handle_content::HandleBody;
use scry::handles::{HandleState, HandleTable};
use scry::jobs::{job_end, worker_step, JobEnd, JobProgress, WorkerStep};
use scry::model::{ChunkContent, HandleMode, IndexingJobStatus};
use scry::node_indexing::{IndexingStep, NodeIndexing};
use scry::status::Code;

fn chunk(chunk_id: i64, content: &str) -> ChunkContent {
    ChunkContent { chunk_id, content: content.to_string() }
}

fn charge(total_tokens: u64, credits: u64) -> EmbeddingCharge {
    EmbeddingCharge { total_tokens, credits, from_upstream_usage: false }
}

#[test]
fn a_node_is_indexed_batch_by_batch_and_billed_once() {
    let mut n = NodeIndexing::new(8);
    assert_eq!(n.step(), IndexingStep::List { after_id: 0 });
    n.take_page(vec![chunk(3, "aaaa"), chunk(5, "bbbb"), chunk(9, "cccccc")]);
    assert_eq!(n.step(), IndexingStep::Embed { from: 0, to: 2 });
    assert_eq!(n.batch().0, vec![3, 5]);
    assert_eq!(n.batch().1, vec!["aaaa", "bbbb"]);
    n.take_embedded(2, charge(2, 1)).expect("as many as asked for");
    n.take_persisted(2);
    assert_eq!(n.step(), IndexingStep::Embed { from: 2, to: 3 });
    assert_eq!(n.batch().0, vec![9]);
    n.take_embedded(1, charge(3, 4)).expect("as many as asked for");
    n.take_persisted(1);
    assert_eq!(n.step(), IndexingStep::List { after_id: 9 });
    n.take_page(Vec::new());
    assert_eq!(n.step(), IndexingStep::Emit { indexed: 3 });
    assert_eq!(n.take_emitted(), Some(charge(5, 5)));
    assert_eq!(n.step(), IndexingStep::Done);
}

#[test]
fn a_chunk_over_the_limit_goes_alone() {
    let mut n = NodeIndexing::new(4);
    n.take_page(vec![chunk(1, "far too long"), chunk(2, "b")]);
    assert_eq!(n.step(), IndexingStep::Embed { from: 0, to: 1 });
    assert_eq!(n.batch().0, vec![1]);
    n.take_embedded(1, charge(1, 1)).expect("as many as asked for");
    n.take_persisted(1);
    assert_eq!(n.step(), IndexingStep::Embed { from: 1, to: 2 });
    assert_eq!(n.batch().0, vec![2]);
}

#[test]
fn too_few_embeddings_end_the_run() {
    let mut n = NodeIndexing::new(100);
    n.take_page(vec![chunk(1, "a"), chunk(2, "b")]);
    let err = n.take_embedded(1, charge(1, 1)).expect_err("one is missing");
    assert_eq!(err, "embedding batch size mismatch: 2 inputs vs 1 outputs");
    assert_eq!(n.totals().tokens, 0);
}

#[test]
fn a_node_without_chunks_costs_nothing() {
    let mut n = NodeIndexing::new(100);
    n.take_page(Vec::new());
    assert_eq!(n.step(), IndexingStep::Emit { indexed: 0 });
    assert_eq!(n.take_emitted(), None);
}

#[test]
fn the_worker_waits_when_there_is_nothing_to_do() {
    assert_eq!(worker_step(None), WorkerStep::Wait { ms: 250 });
    assert_eq!(worker_step(Some(0)), WorkerStep::Wait { ms: 100 });
    assert_eq!(worker_step(Some(3)), WorkerStep::Work);
    assert_eq!(job_end(true, 2), JobEnd::Complete);
    assert_eq!(job_end(false, 0), JobEnd::TryAgain { delay_ms: 250 });
    assert_eq!(job_end(false, 2), JobEnd::TryAgain { delay_ms: 5000 });
    assert_eq!(job_end(false, 9), JobEnd::TryAgain { delay_ms: 30000 });
}

#[test]
fn a_handle_knows_its_node_and_its_file() {
    let mut table = HandleTable::new();
    table.open(
        "h".to_string(),
        HandleState {
            workspace_id: "w".to_string(),
            node_id: "n".to_string(),
            mode: HandleMode::ReadWrite,
            snapshot_version: 1,
            body: HandleBody::spilled(9, "/tmp/s".to_string()),
            dirty: false,
            last_touched: 0,
            closing: false,
        },
    );
    assert_eq!(table.node_of("h").expect("open"), "n");
    assert_eq!(table.spilled_file("h"), Some("/tmp/s".to_string()));
    let err = table.node_of("x").expect_err("unknown");
    assert_eq!((err.code, err.message.as_str()), (Code::NotFound, "handle_id not found"));
    assert_eq!(table.spilled_file("x"), None);
}

#[test]
fn a_failed_job_comes_back() {
    let job = JobProgress::queued(100);
    assert_eq!(job.status, IndexingJobStatus::Queued);
    let running = job.take(200);
    assert_eq!(running.status, IndexingJobStatus::Running);
    assert_eq!(running.started_at_ns, Some(200));
    let again = running.fail(300, 1).expect("the delay fits");
    assert_eq!(again.status, IndexingJobStatus::Queued);
    assert_eq!(again.attempts, job.attempts + 1);
    assert_eq!((again.scheduled_at_ns, again.started_at_ns), (1_000_300, None));
    let done = again.take(400).complete(500);
    assert_eq!(done.status, IndexingJobStatus::Completed);
    assert_eq!(done.completed_at_ns, Some(500));
    assert!(running.fail(300, u64::MAX).is_err());
}

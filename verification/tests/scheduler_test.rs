use rustfastingest::scheduler::{IngestAction, IngestScheduler, IngestionRequest, PermitBudget};

#[test]
fn ingestion_request_fields() {
    let req = IngestionRequest::new(
        vec!["a.json".to_string(), "b.json".to_string()],
        "batch-1".to_string(),
    );
    assert_eq!(req.files.len(), 2);
    assert_eq!(req.ingestion_id, "batch-1");
}

#[test]
fn permit_budget_bounds() {
    let mut budget = PermitBudget::new(4);
    for _ in 0..4 {
        assert!(budget.try_acquire());
    }
    assert!(!budget.try_acquire());
    assert_eq!(budget.in_flight, 4);
    budget.release();
    assert!(budget.try_acquire());
    assert_eq!(budget.in_flight, 4);
}

// Bounded parallelism: one hundred files under four permits; at no instant
// are more than four tasks past their acquire before one releases.
#[test]
fn bounded_parallelism() {
    let files: Vec<String> = (0..100).map(|i| format!("file-{i}.json")).collect();
    let mut scheduler = IngestScheduler::new(files, 4);
    let mut started = 0;
    let mut finished = 0;
    loop {
        assert!(scheduler.running <= 4);
        match scheduler.next_action() {
            IngestAction::Start(file) => {
                assert!(file.starts_with("file-"));
                started += 1;
                assert!(scheduler.running <= 4);
            }
            IngestAction::Wait => {
                // The budget is exhausted or the queue is drained: one task
                // completes and returns its permit.
                scheduler.task_finished();
                finished += 1;
            }
            IngestAction::Done => break,
        }
    }
    assert_eq!(started, 100);
    assert_eq!(finished, 100);
    assert_eq!(scheduler.running, 0);
    assert!(scheduler.pending.is_empty());
}

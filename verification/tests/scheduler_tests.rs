use homestar_runtime::db::MemoryDb;
use homestar_runtime::receipt::InstructionResult;
use homestar_runtime::receipt::Receipt;
use homestar_runtime::receipt::Val;
use homestar_runtime::scheduler::SchedulerError;
use homestar_runtime::scheduler::TaskScheduler;
use homestar_runtime::workflow::Cid;
use homestar_runtime::workflow::Instruction;
use homestar_runtime::workflow::Resource;
use homestar_runtime::workflow::Task;
use homestar_runtime::workflow::Workflow;
use indexmap::IndexMap;

fn cid(n: u8) -> Cid {
    Cid { bytes: vec![n, n + 1, n + 2] }
}

fn task(n: u8, deps: Vec<Cid>) -> Task {
    Task {
        instruction: Instruction {
            cid: cid(n),
            resource: Resource { uri: format!("ipfs://module-{}", n) },
            deps,
        },
    }
}

fn receipt(n: u8, output: InstructionResult) -> Receipt {
    Receipt { instruction: cid(n), output, meta: Val::Null, prf: None }
}

#[test]
fn initialize_task_scheduler() {
    let task1 = task(1, vec![]);
    let task2 = task(2, vec![cid(1)]);

    let db = MemoryDb::new();
    let workflow = Workflow { tasks: vec![task1, task2] };
    let scheduler = TaskScheduler::init(workflow, &db, Some(IndexMap::new())).unwrap();

    assert!(scheduler.linkmap.is_empty());
    assert!(scheduler.ran.is_none());
    assert_eq!(scheduler.run.len(), 2);
    assert_eq!(scheduler.resume_step, None);
}

#[test]
fn initialize_task_scheduler_with_receipted_instruction() {
    let task1 = task(1, vec![]);
    let task2 = task(2, vec![cid(1)]);

    let receipt = receipt(1, InstructionResult::Success(Val::Integer(4)));

    let mut db = MemoryDb::new();
    let stored_receipt = db.store_receipt(receipt.clone_receipt());

    assert_eq!(receipt, stored_receipt);

    let workflow = Workflow { tasks: vec![task1, task2] };
    let scheduler = TaskScheduler::init(workflow, &db, Some(IndexMap::new())).unwrap();
    let ran = scheduler.ran.as_ref().unwrap();

    assert_eq!(scheduler.linkmap.len(), 1);
    assert!(scheduler.linkmap.contains_key(&cid(1)));
    assert_eq!(ran.len(), 1);
    assert_eq!(scheduler.run.len(), 1);
    assert_eq!(scheduler.resume_step, Some(1));
}

#[test]
fn initialize_task_scheduler_with_all_receipted_instruction() {
    let task1 = task(1, vec![]);
    let task2 = task(2, vec![cid(1)]);

    let receipt1 = receipt(1, InstructionResult::Success(Val::Integer(4)));
    let receipt2 = receipt(2, InstructionResult::Success(Val::Integer(44)));

    let mut db = MemoryDb::new();
    let rows_inserted = db.store_receipts(vec![receipt1, receipt2]);

    assert_eq!(2, rows_inserted);

    let workflow = Workflow { tasks: vec![task1, task2] };
    let scheduler = TaskScheduler::init(workflow, &db, Some(IndexMap::new())).unwrap();
    let ran = scheduler.ran.as_ref().unwrap();

    assert_eq!(scheduler.linkmap.len(), 1);
    assert!(!scheduler.linkmap.contains_key(&cid(1)));
    assert!(scheduler.linkmap.contains_key(&cid(2)));
    assert_eq!(
        scheduler.linkmap.get(&cid(2)),
        Some(&InstructionResult::Success(Val::Integer(44)))
    );
    assert_eq!(ran.len(), 2);
    assert!(scheduler.run.is_empty());
    assert_eq!(scheduler.resume_step, None);
}

#[test]
fn scheduler_keeps_first_batch_receipt_value() {
    let task1 = task(1, vec![]);
    let task2 = task(2, vec![cid(1)]);

    let mut db = MemoryDb::new();
    db.store_receipt(receipt(1, InstructionResult::Success(Val::Integer(4))));

    let workflow = Workflow { tasks: vec![task1, task2] };
    let scheduler = TaskScheduler::init(workflow, &db, Some(IndexMap::new())).unwrap();

    assert_eq!(
        scheduler.linkmap.get(&cid(1)),
        Some(&InstructionResult::Success(Val::Integer(4)))
    );
    assert_eq!(scheduler.linkmap.get(&cid(2)), None);
}

#[test]
fn scheduler_partial_first_batch_has_no_resume_step() {
    // one batch of two independent tasks, only one receipted: the batch is
    // partially satisfied, so everything must rerun and nothing "ran"
    let task1 = task(1, vec![]);
    let task2 = task(2, vec![]);

    let mut db = MemoryDb::new();
    db.store_receipt(receipt(1, InstructionResult::Success(Val::Integer(4))));

    let workflow = Workflow { tasks: vec![task1, task2] };
    let scheduler = TaskScheduler::init(workflow, &db, Some(IndexMap::new())).unwrap();

    let ran = scheduler.ran.as_ref().unwrap();
    assert_eq!(ran.len(), 0);
    assert_eq!(scheduler.run.len(), 1);
    assert_eq!(scheduler.resume_step, None);
    assert_eq!(scheduler.linkmap.len(), 1);
    assert!(scheduler.linkmap.contains_key(&cid(1)));
}

#[test]
fn scheduler_failed_receipt_is_still_cached() {
    let task1 = task(1, vec![]);
    let task2 = task(2, vec![cid(1)]);

    let mut db = MemoryDb::new();
    db.store_receipt(receipt(
        1,
        InstructionResult::Failure(Val::Text(String::from("boom"))),
    ));

    let workflow = Workflow { tasks: vec![task1, task2] };
    let scheduler = TaskScheduler::init(workflow, &db, Some(IndexMap::new())).unwrap();

    assert_eq!(scheduler.resume_step, Some(1));
    assert_eq!(
        scheduler.linkmap.get(&cid(1)),
        Some(&InstructionResult::Failure(Val::Text(String::from("boom"))))
    );
}

#[test]
fn scheduler_resumes_after_deepest_fully_receipted_batch() {
    // three chained tasks; the middle one is the deepest fully receipted
    // batch, so execution resumes right after it
    let task1 = task(1, vec![]);
    let task2 = task(2, vec![cid(1)]);
    let task3 = task(3, vec![cid(2)]);

    let mut db = MemoryDb::new();
    db.store_receipt(receipt(2, InstructionResult::Success(Val::Integer(7))));

    let workflow = Workflow { tasks: vec![task1, task2, task3] };
    let scheduler = TaskScheduler::init(workflow, &db, Some(IndexMap::new())).unwrap();

    let ran = scheduler.ran.as_ref().unwrap();
    assert_eq!(ran.len(), 2);
    assert_eq!(scheduler.run.len(), 1);
    assert_eq!(scheduler.run[0][0].name, cid(3));
    assert_eq!(scheduler.resume_step, Some(2));
    assert_eq!(scheduler.linkmap.len(), 1);
    assert!(scheduler.linkmap.contains_key(&cid(2)));
}

#[test]
fn scheduler_passes_over_batch_with_surplus_receipts() {
    // two receipts recorded under one instruction's identifier: the lookup
    // yields more receipts than the batch has instructions, which counts
    // neither as fully nor as partially satisfied
    let task1 = task(1, vec![]);

    let mut db = MemoryDb::new();
    db.store_receipt(receipt(1, InstructionResult::Success(Val::Integer(4))));
    db.store_receipt(receipt(1, InstructionResult::Success(Val::Integer(5))));

    let workflow = Workflow { tasks: vec![task1] };
    let scheduler = TaskScheduler::init(workflow, &db, Some(IndexMap::new())).unwrap();

    assert!(scheduler.ran.is_none());
    assert_eq!(scheduler.run.len(), 1);
    assert_eq!(scheduler.resume_step, None);
    assert!(scheduler.linkmap.is_empty());
}

#[test]
fn scheduler_fetch_failure_propagates() {
    let task1 = task(1, vec![]);
    let workflow = Workflow { tasks: vec![task1] };
    let db = MemoryDb::new();

    let result = TaskScheduler::init(workflow, &db, None);
    assert_eq!(result.unwrap_err(), SchedulerError::FetchFailed);
}

#[test]
fn scheduler_invalid_workflow_beats_fetch_failure() {
    let workflow = Workflow { tasks: vec![] };
    let db = MemoryDb::new();

    let result = TaskScheduler::init(workflow, &db, None);
    assert_eq!(result.unwrap_err(), SchedulerError::InvalidWorkflow);
}

#[test]
fn scheduler_carries_fetched_resources_through() {
    let task1 = task(1, vec![]);
    let workflow = Workflow { tasks: vec![task1] };
    let db = MemoryDb::new();

    let mut fetched: IndexMap<Resource, Vec<u8>> = IndexMap::new();
    fetched.insert(
        Resource { uri: String::from("ipfs://module-1") },
        vec![0, 97, 115, 109],
    );
    let scheduler = TaskScheduler::init(workflow, &db, Some(fetched)).unwrap();

    assert_eq!(scheduler.resources.len(), 1);
    assert_eq!(
        scheduler.resources.get(&Resource { uri: String::from("ipfs://module-1") }),
        Some(&vec![0, 97, 115, 109])
    );
}

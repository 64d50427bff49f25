use homestar_runtime::scheduler::SchedulerError;
use homestar_runtime::workflow::Cid;
use homestar_runtime::workflow::Instruction;
use homestar_runtime::workflow::Resource;
use homestar_runtime::workflow::Task;
use homestar_runtime::workflow::Workflow;

fn cid(n: u8) -> Cid {
    Cid { bytes: vec![n, 10, 20] }
}

fn task_with_uri(n: u8, uri: &str, deps: Vec<Cid>) -> Task {
    Task {
        instruction: Instruction {
            cid: cid(n),
            resource: Resource { uri: String::from(uri) },
            deps,
        },
    }
}

fn task(n: u8, deps: Vec<Cid>) -> Task {
    Task {
        instruction: Instruction {
            cid: cid(n),
            resource: Resource { uri: format!("ipfs://module-{}", n) },
            deps,
        },
    }
}

#[test]
fn graph_layers_diamond_dependencies() {
    // t1 -> (t2, t3) -> t4: three batches, authoring order kept inside one
    let workflow = Workflow {
        tasks: vec![
            task(1, vec![]),
            task(2, vec![cid(1)]),
            task(3, vec![cid(1)]),
            task(4, vec![cid(2), cid(3)]),
        ],
    };
    let graph = workflow.graph().unwrap();

    assert_eq!(graph.schedule.len(), 3);
    assert_eq!(graph.schedule[0].len(), 1);
    assert_eq!(graph.schedule[0][0].name, cid(1));
    assert_eq!(graph.schedule[1].len(), 2);
    assert_eq!(graph.schedule[1][0].name, cid(2));
    assert_eq!(graph.schedule[1][1].name, cid(3));
    assert_eq!(graph.schedule[2].len(), 1);
    assert_eq!(graph.schedule[2][0].name, cid(4));
}

#[test]
fn graph_batch_zero_has_no_dependencies() {
    let workflow = Workflow {
        tasks: vec![task(2, vec![cid(1)]), task(1, vec![]), task(3, vec![])],
    };
    let graph = workflow.graph().unwrap();

    assert_eq!(graph.schedule.len(), 2);
    assert_eq!(graph.schedule[0].len(), 2);
    assert_eq!(graph.schedule[0][0].name, cid(1));
    assert_eq!(graph.schedule[0][1].name, cid(3));
    assert_eq!(graph.schedule[1][0].name, cid(2));
}

#[test]
fn graph_is_deterministic() {
    let make = || Workflow {
        tasks: vec![task(1, vec![]), task(2, vec![cid(1)]), task(3, vec![cid(1)])],
    };
    let g1 = make().graph().unwrap();
    let g2 = make().graph().unwrap();
    assert_eq!(g1, g2);
}

#[test]
fn graph_deduplicates_resources_in_first_occurrence_order() {
    let workflow = Workflow {
        tasks: vec![
            task_with_uri(1, "ipfs://shared", vec![]),
            task_with_uri(2, "ipfs://other", vec![cid(1)]),
            task_with_uri(3, "ipfs://shared", vec![cid(1)]),
        ],
    };
    let graph = workflow.graph().unwrap();

    assert_eq!(graph.resources.len(), 2);
    assert_eq!(graph.resources[0].uri, "ipfs://shared");
    assert_eq!(graph.resources[1].uri, "ipfs://other");
}

#[test]
fn graph_rejects_empty_workflow() {
    let workflow = Workflow { tasks: vec![] };
    assert_eq!(workflow.graph().unwrap_err(), SchedulerError::InvalidWorkflow);
}

#[test]
fn graph_rejects_cycle() {
    let workflow = Workflow {
        tasks: vec![task(1, vec![cid(2)]), task(2, vec![cid(1)])],
    };
    assert_eq!(workflow.graph().unwrap_err(), SchedulerError::InvalidWorkflow);
}

#[test]
fn graph_rejects_self_dependency() {
    let workflow = Workflow { tasks: vec![task(1, vec![cid(1)])] };
    assert_eq!(workflow.graph().unwrap_err(), SchedulerError::InvalidWorkflow);
}

#[test]
fn graph_rejects_dangling_reference() {
    let workflow = Workflow {
        tasks: vec![task(1, vec![]), task(2, vec![cid(9)])],
    };
    assert_eq!(workflow.graph().unwrap_err(), SchedulerError::InvalidWorkflow);
}

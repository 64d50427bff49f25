use homestar_runtime::dispatcher::WorkflowListeners;
use homestar_runtime::rpc::RpcError;
use homestar_runtime::rpc::RunnerMessage;
use homestar_runtime::rpc::workflow_rendezvous;
use homestar_runtime::workflow::Cid;
use homestar_runtime::workflow::Instruction;
use homestar_runtime::workflow::Resource;
use homestar_runtime::workflow::Task;
use homestar_runtime::workflow::Workflow;

fn cid(n: u8) -> Cid {
    Cid { bytes: vec![n, 1, 2] }
}

fn one_task_workflow() -> Workflow {
    Workflow {
        tasks: vec![Task {
            instruction: Instruction {
                cid: cid(1),
                resource: Resource { uri: String::from("ipfs://module-1") },
                deps: vec![],
            },
        }],
    }
}

#[test]
fn rendezvous_accepts_on_acknowledgement() {
    let reply = Some(RunnerMessage::AckWorkflow(cid(5), String::from("wf")));
    let (accepted_cid, name) = workflow_rendezvous(reply).unwrap();
    assert_eq!(accepted_cid, cid(5));
    assert_eq!(name, "wf");

    // on acceptance the subscription is registered under its id
    let mut listeners = WorkflowListeners::new();
    listeners.insert(3, accepted_cid, name);
    assert!(listeners.contains(3));
}

#[test]
fn rendezvous_timeout_rejects_and_registers_nothing() {
    let listeners = WorkflowListeners::new();

    let outcome = workflow_rendezvous(None);
    assert_eq!(outcome.unwrap_err(), RpcError::InternalError);
    assert!(!listeners.contains(42));
}

#[test]
fn rendezvous_rejects_unexpected_reply() {
    let reply = Some(RunnerMessage::RunWorkflow(String::from("wf"), one_task_workflow()));
    assert_eq!(workflow_rendezvous(reply).unwrap_err(), RpcError::InternalError);
}

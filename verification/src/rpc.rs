//! The verified decisions of the JSON-RPC surface: the start-workflow
//! rendezvous, which accepts a pending workflow subscription only on the
//! runner's acknowledgement.

use vstd::prelude::*;
use crate::workflow::Cid;
use crate::workflow::Workflow;

verus! {

/// A message exchanged with the workflow runner's mailbox.
pub enum RunnerMessage {
    /// Ask the runner to start this workflow under this name.
    RunWorkflow(String, Workflow),
    /// The runner's acknowledgement: the canonical identifier it chose for
    /// the workflow, and the workflow's name.
    AckWorkflow(Cid, String),
}

/// How the surface reports an RPC request that failed.
#[derive(Debug, PartialEq, Eq, Structural)]
pub enum RpcError {
    /// An internal failure: an acknowledgement that did not arrive in time,
    /// or arrived malformed.
    InternalError,
}

/// The start-workflow rendezvous decision, given what the reply channel
/// yielded before the deadline (`None` stands for a timeout, a closed
/// channel or no reply): only a workflow acknowledgement accepts the
/// pending subscription, carrying the canonical identifier the runner chose
/// and the run's name — never anything the caller supplied — and anything
/// else rejects it as an internal error.
pub fn workflow_rendezvous(reply: Option<RunnerMessage>) -> (r: Result<(Cid, String), RpcError>)
    ensures
        match reply {
            Some(RunnerMessage::AckWorkflow(c, n)) => r == Ok::<(Cid, String), RpcError>((c, n)),
            Some(RunnerMessage::RunWorkflow(_, _)) => r == Err::<(Cid, String), RpcError>(
                RpcError::InternalError,
            ),
            None => r == Err::<(Cid, String), RpcError>(RpcError::InternalError),
        },
{
    match reply {
        Some(RunnerMessage::AckWorkflow(c, n)) => Ok((c, n)),
        Some(RunnerMessage::RunWorkflow(_, _)) => Err(RpcError::InternalError),
        None => Err(RpcError::InternalError),
    }
}

} // verus!

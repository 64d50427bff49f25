//! A verified core for a content-addressed workflow runtime.
//!
//! The crate has two halves:
//!
//! * a workflow scheduler: a workflow of content-addressed tasks is compiled
//!   into a layered, batched schedule ([`workflow::Workflow::graph`]), which is
//!   then reconciled against a receipt store so that already-completed batches
//!   are skipped ([`scheduler::TaskScheduler::init`]);
//! * a notification surface: per-subscription dispatch of broadcast messages,
//!   filtered by workflow identity or event class, with the bookkeeping of the
//!   subscription-record map ([`dispatcher`]).

pub mod db;
pub mod dispatcher;
pub mod notifier;
pub mod rpc;
pub mod scheduler;
pub mod linkmap;
pub mod receipt;
pub mod workflow;

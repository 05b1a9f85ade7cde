//! Workflow orchestration core: task identities, the dependency DAG,
//! deadlock analysis, rollback planning and execution bookkeeping.

pub mod task;
pub mod graph;
pub mod digraph;
pub mod dag;
pub mod text;
pub mod deadlock;
pub mod rollback;
pub mod compensation;
pub mod state;
pub mod cancellation;
pub mod checkpoint;
pub mod checkpoint_service;
pub mod audit;
pub mod sorting;
pub mod executor;
pub mod combinators;
pub mod gate;
pub mod plan;
pub mod plan_store;
pub mod custody;
pub mod plan_graph;
pub mod explorer;
pub mod semgrep;
pub mod transaction;
pub mod verify;
pub mod examples;
pub mod builder;
pub mod auto_detect;

//! An agent runtime that turns free-form model output into validated tool
//! invocations, executes them under per-action deadlines and strategies,
//! and folds the results back into a bounded session memory.
//!
//! The crate holds the three subsystems and what they share: the plan
//! parser ([`planner`], over the scanners of [`scan`]), the tool
//! dispatcher's decision logic ([`dispatcher`]), and the agent memory
//! ([`memory`], persisted by [`snapshot`]).  Every JSON text the system
//! writes or reads goes through the verified codec of [`json`]; [`llm`]
//! and [`tools`] hold the bundled model simulation and tool computation
//! cores; [`agent`] assembles the parts.  Process spawning, file reading
//! and the command line live outside the crate and hand plain values in.

use vstd::prelude::*;

pub mod agent;
pub mod dispatcher;
pub mod json;
pub mod llm;
pub mod memory;
pub mod planner;
pub mod scan;
pub mod snapshot;
pub mod text;
pub mod tools;

pub use agent::{AgentHealthStatus, TaskResponse, TinyEdgeAgent};
pub use dispatcher::{DispatcherStats, ToolDispatcher, ToolResult};
pub use llm::{ErrorResponse, InferenceResponse, SuperTinyWasmLLM};
pub use memory::{AgentMemory, MemoryStats, Message};
pub use planner::{ActionPlan, ExecutionPlan, ExecutionStrategy, Planner, ToolDefinition};

verus! {

} // verus!

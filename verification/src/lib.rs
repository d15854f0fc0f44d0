//! Shared reasoning and coordination core of a multi-agent task platform.
//!
//! The crate holds the decisions of the core as verified functions over plain
//! values: the capability check, the layout of the fact log, the symbolic rule
//! engine, the tiered planner and the life cycle of the status channel.
//! Reading and writing the durable store and binding the channel are left to
//! the program around the library, which hands in what it read.

pub mod auth;
pub mod decimal;
pub mod encoding;
pub mod facts;
pub mod ipc;
pub mod json;
pub mod model;
pub mod plan;
pub mod planner;
pub mod rules;
pub mod store;
pub mod text;

pub use auth::{AgentIdentity, AuthScope, AuthorizationGatekeeper, PermissionDenied};
pub use facts::{AgentFact, FactRecord, ReflectionFact, REFLECTION_FACT_TYPE};
pub use ipc::{InitStep, IpcError, IpcLifecycle, StorageError, PAGI_IPC_NAME};
pub use model::{FactWrite, PAGICoreModel};
pub use plan::{apply_directives, Plan, Task};
pub use planner::{PlanParseError, PlannerError};
pub use rules::PAGIRule;
pub use store::StoredEntry;

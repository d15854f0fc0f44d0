//! Facts: the records that agents contribute to the durable log.

use vstd::prelude::*;

verus! {

/// The type under which a reflection is stored in the log.
pub const REFLECTION_FACT_TYPE: &'static str = "ReflectionFact";

/// A structured fact that an agent wrote. It is never changed once written.
#[derive(Debug)]
pub struct AgentFact {
    pub agent_id: String,
    /// Seconds since the Unix epoch.
    pub timestamp: u64,
    pub fact_type: String,
    /// A serialized payload whose shape depends on `fact_type`.
    pub content: String,
}

/// A self-critique with a suggested change of behaviour for one agent type.
/// It is stored as a fact of type `ReflectionFact` whose content is its own
/// serialized form.
#[derive(Debug)]
pub struct ReflectionFact {
    pub target_agent: String,
    pub critique: String,
    pub new_directive: String,
}

/// A fact as the planner sees it: the fact, and the reflection that its
/// content decodes to, where it decodes to one.
#[derive(Debug)]
pub struct FactRecord {
    pub fact: AgentFact,
    pub reflection: Option<ReflectionFact>,
}

/// The facts of a list of records, in order.
pub open spec fn facts_of(records: Seq<FactRecord>) -> Seq<AgentFact> {
    Seq::new(records.len(), |i: int| records[i].fact)
}

} // verus!

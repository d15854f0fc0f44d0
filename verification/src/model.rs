//! The core model: the gatekeeper, the rule engine, the planner and the channel
//! behind one value that agents share.

use vstd::prelude::*;
use interprocess::local_socket::LocalSocketListener;
use crate::auth::{
    holds_scope, may_write_facts, AgentIdentity, AuthScope, AuthorizationGatekeeper,
    PermissionDenied,
};
use crate::facts::{AgentFact, FactRecord};
use crate::ipc::{
    init_step, init_succeeds, state_after_init, state_after_take, state_after_teardown,
    unbound_state, unlink_target, InitStep, IpcError, IpcLifecycle, IpcState, StorageError,
    PAGI_IPC_NAME,
};
use crate::plan::Plan;
use crate::planner::{plan_matches, plan_request, planned, PlannerError};
use crate::rules::{
    default_rules, directives_of, emitted_directives, is_default_rules, match_directives,
    texts_model, PAGIRule,
};
use crate::store::{
    fact_key, fact_key_bytes, facts_since, selected_facts, StoredEntry,
};

verus! {

/// The central model that agents share: the rule set, and the life cycle of
/// the status channel.
pub struct PAGICoreModel {
    ipc: IpcLifecycle,
    rules: Vec<PAGIRule>,
}

/// A fact that the gatekeeper let through, under the key it is to be stored at.
#[derive(Debug)]
pub struct FactWrite {
    pub key: Vec<u8>,
    pub fact: AgentFact,
}

impl PAGICoreModel {
    /// The rules of the core.
    pub closed spec fn rule_set(&self) -> Seq<PAGIRule> {
        self.rules@
    }

    /// The state of the status channel.
    pub closed spec fn channel(&self) -> IpcState {
        self.ipc@
    }

    /// A core with the default rules that has not touched the channel.
    pub fn new() -> (core: Self)
        ensures
            core.channel() == unbound_state(PAGI_IPC_NAME@),
            is_default_rules(core.rule_set()),
    {
        PAGICoreModel { ipc: IpcLifecycle::new(PAGI_IPC_NAME), rules: default_rules() }
    }

    /// A core with the given rules that has not touched the channel.
    pub fn with_rules(rules: Vec<PAGIRule>) -> (core: Self)
        ensures
            core.channel() == unbound_state(PAGI_IPC_NAME@),
            core.rule_set() == rules@,
    {
        PAGICoreModel { ipc: IpcLifecycle::new(PAGI_IPC_NAME), rules }
    }

    /// A core with the given rules for the status channel of the given
    /// name, which it has not touched.
    pub fn on_channel(ipc_name: &str, rules: Vec<PAGIRule>) -> (core: Self)
        ensures
            core.channel() == unbound_state(ipc_name@),
            core.rule_set() == rules@,
    {
        PAGICoreModel { ipc: IpcLifecycle::new(ipc_name), rules }
    }

    /// The rules of the core.
    pub fn rules(&self) -> (rules: &Vec<PAGIRule>)
        ensures
            rules@ == self.rule_set(),
    {
        &self.rules
    }

    /// Grants access exactly when `scope` is among the scopes of `identity`.
    pub fn check_authorization(&self, identity: &AgentIdentity, scope: AuthScope) -> (res: Result<
        (),
        PermissionDenied,
    >)
        ensures
            res is Ok <==> holds_scope(*identity, scope),
            res matches Err(denied) ==> denied.identity@ == identity.id@ && denied.scope == scope,
    {
        AuthorizationGatekeeper::can_access(identity, scope)
    }

    /// The directives that the rules of the core give for the facts: the
    /// directive of each rule that fires on some fact, sorted, each once.
    pub fn apply_rules_to_facts(&self, facts: Vec<AgentFact>) -> (directives: Vec<String>)
        ensures
            directives_of(self.rule_set(), facts@, texts_model(directives@)),
            texts_model(directives@) == emitted_directives(self.rule_set(), facts@),
    {
        match_directives(&self.rules, &facts)
    }

    /// Lets a fact through to the log, or not. Writing takes `WriteFacts`;
    /// a holder of `RoboticsAction` may write all the same. The fact comes
    /// back unchanged under the key of its timestamp and of `id`, the
    /// identifier that the store assigned to the write.
    pub fn record_fact(&self, identity: &AgentIdentity, fact: AgentFact, id: u64) -> (res: Result<
        FactWrite,
        PermissionDenied,
    >)
        ensures
            res is Ok <==> may_write_facts(*identity),
            res matches Ok(write) ==> write.fact == fact && write.key@ == fact_key_bytes(
                fact.timestamp,
                id,
            ),
            res matches Err(denied) ==> denied.identity@ == identity.id@ && denied.scope
                == AuthScope::RoboticsAction,
    {
        match AuthorizationGatekeeper::can_write_facts(identity) {
            Ok(()) => {
                let key = fact_key(fact.timestamp, id);
                Ok(FactWrite { key, fact })
            },
            Err(denied) => Err(denied),
        }
    }

    /// The facts with a timestamp of `start_ts` or later among the entries
    /// of a scan, in the order of the scan, for a holder of `ReadFacts`.
    /// From a start beyond every timestamp of 64 bits nothing comes back.
    pub fn retrieve_facts_by_timestamp(
        &self,
        identity: &AgentIdentity,
        entries: Vec<StoredEntry>,
        start_ts: u128,
    ) -> (res: Result<Vec<AgentFact>, PermissionDenied>)
        ensures
            res is Ok <==> holds_scope(*identity, AuthScope::ReadFacts),
            res matches Ok(facts) ==> facts@ == selected_facts(entries@, start_ts),
            res matches Ok(facts) ==> (start_ts > u64::MAX ==> facts@.len() == 0),
            res matches Err(denied) ==> denied.identity@ == identity.id@ && denied.scope
                == AuthScope::ReadFacts,
    {
        match AuthorizationGatekeeper::can_access(identity, AuthScope::ReadFacts) {
            Ok(()) => Ok(facts_since(entries, start_ts)),
            Err(denied) => Err(denied),
        }
    }

    /// What is to be done to initialize the status channel.
    pub fn begin_ipc_init(&self) -> (step: InitStep)
        ensures
            step == init_step(self.channel()),
    {
        self.ipc.begin_init()
    }

    /// Takes in the outcome of binding the status channel. Where a listener
    /// is held already the outcome is dropped and the call succeeds. A
    /// failed bind is returned with its cause; the core stays usable.
    pub fn init_ipc_server(&mut self, outcome: Result<LocalSocketListener, String>) -> (res: Result<
        (),
        IpcError,
    >)
        ensures
            final(self).channel() == state_after_init(old(self).channel(), outcome),
            final(self).rule_set() == old(self).rule_set(),
            res is Ok <==> init_succeeds(old(self).channel(), outcome),
            res matches Err(error) ==> error.name@ == old(self).channel().name && outcome is Err
                && error.cause@ == outcome->Err_0@,
    {
        self.ipc.complete_init(outcome)
    }

    /// The name that agents connect to.
    pub fn ipc_name(&self) -> (name: &str)
        ensures
            name@ == self.channel().name,
    {
        self.ipc.name()
    }

    /// Hands the listener to the caller, who runs the accept loop. A second
    /// call gives nothing.
    pub fn take_ipc_listener(&mut self) -> (listener: Option<LocalSocketListener>)
        ensures
            listener == old(self).channel().listener,
            final(self).channel() == state_after_take(old(self).channel()),
            final(self).rule_set() == old(self).rule_set(),
    {
        self.ipc.take_listener()
    }

    /// Tears the core down, given how the flush of the durable store went.
    /// A failed flush stops the teardown. Else the listener is released if
    /// it is still held, and the name to unlink is returned if this
    /// instance bound the channel.
    pub fn teardown(&mut self, flushed: Result<(), String>) -> (res: Result<
        Option<String>,
        StorageError,
    >)
        ensures
            final(self).rule_set() == old(self).rule_set(),
            match res {
                Ok(target) => flushed is Ok && final(self).channel() == state_after_teardown(
                    old(self).channel(),
                ) && (match target {
                    Some(name) => unlink_target(old(self).channel()) == Some(name@),
                    None => unlink_target(old(self).channel()) is None,
                }),
                Err(error) => flushed is Err && error.cause@ == flushed->Err_0@
                    && final(self).channel() == old(self).channel(),
            },
    {
        self.ipc.teardown(flushed)
    }

    /// Plans a request from what the log holds. A request that names a
    /// security product gets the triage plan at once, with the request as
    /// it was given as payload. Else the supplied
    /// plan is taken, rewritten by the directives that the rules give for
    /// the facts, if it is there, not switched off, well-formed and not
    /// empty. Else the fallback decides, and a request that it does not know
    /// has no plan.
    pub fn general_reasoning(
        &self,
        prompt: &str,
        llm_response_json: &str,
        llm_disabled: bool,
        records: &Vec<FactRecord>,
    ) -> (res: Result<Plan, PlannerError>)
        ensures
            plan_matches(
                res,
                planned(self.rule_set(), prompt@, llm_response_json@, llm_disabled, records@),
            ),
            res matches Ok(plan) ==> plan@.len() > 0,
    {
        plan_request(&self.rules, prompt, llm_response_json, llm_disabled, records)
    }
}

} // verus!

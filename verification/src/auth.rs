//! Capability-based authorization: flat scopes, checked by membership.

use vstd::prelude::*;
use vstd::string::StringExecFns;

verus! {

/// A capability that an identity may hold. Scopes are flat: none implies
/// another.
#[derive(Debug, Clone, Copy, PartialEq, Eq, Structural)]
pub enum AuthScope {
    ReadFacts,
    WriteFacts,
    WritePolicy,
    ExternalAPI,
    RoboticsAction,
}

/// An agent together with the scopes it was granted.
#[derive(Debug, Clone)]
pub struct AgentIdentity {
    pub id: String,
    pub scopes: Vec<AuthScope>,
}

/// A denial by the gatekeeper: who asked, and which scope was missing.
#[derive(Debug)]
pub struct PermissionDenied {
    pub identity: String,
    pub scope: AuthScope,
}

/// The stateless check in front of the knowledge base.
pub struct AuthorizationGatekeeper;

/// The name under which a scope appears in messages.
pub open spec fn scope_name(scope: AuthScope) -> Seq<char> {
    match scope {
        AuthScope::ReadFacts => "ReadFacts"@,
        AuthScope::WriteFacts => "WriteFacts"@,
        AuthScope::WritePolicy => "WritePolicy"@,
        AuthScope::ExternalAPI => "ExternalAPI"@,
        AuthScope::RoboticsAction => "RoboticsAction"@,
    }
}

/// The text of a denial for the agent `identity` and the missing `scope`.
pub open spec fn denial_text(identity: Seq<char>, scope: AuthScope) -> Seq<char> {
    "Permission denied: agent '"@ + identity + "' missing required scope "@ + scope_name(scope)
}

/// Whether `identity` holds `scope`.
pub open spec fn holds_scope(identity: AgentIdentity, scope: AuthScope) -> bool {
    identity.scopes@.contains(scope)
}

/// Whether `identity` may append to the fact log: it holds `WriteFacts`, or,
/// as the one exception to flat scopes, `RoboticsAction`.
pub open spec fn may_write_facts(identity: AgentIdentity) -> bool {
    holds_scope(identity, AuthScope::WriteFacts) || holds_scope(
        identity,
        AuthScope::RoboticsAction,
    )
}

/// Reading is not writing: an identity that holds `ReadFacts` and nothing
/// else may not append to the fact log, while one that holds
/// `RoboticsAction` and nothing else may.
pub proof fn lemma_write_policy(identity: AgentIdentity)
    ensures
        identity.scopes@ == seq![AuthScope::ReadFacts] ==> !may_write_facts(identity),
        identity.scopes@ == seq![AuthScope::RoboticsAction] ==> may_write_facts(identity),
        identity.scopes@ == seq![AuthScope::WriteFacts] ==> may_write_facts(identity),
        identity.scopes@.len() == 0 ==> !may_write_facts(identity),
{
    if identity.scopes@ == seq![AuthScope::RoboticsAction] {
        assert(identity.scopes@[0] == AuthScope::RoboticsAction);
    }
    if identity.scopes@ == seq![AuthScope::WriteFacts] {
        assert(identity.scopes@[0] == AuthScope::WriteFacts);
    }
}

impl AuthScope {
    /// The name of the scope, as it is written in messages.
    pub fn name(self) -> (text: &'static str)
        ensures
            text@ == scope_name(self),
    {
        match self {
            AuthScope::ReadFacts => "ReadFacts",
            AuthScope::WriteFacts => "WriteFacts",
            AuthScope::WritePolicy => "WritePolicy",
            AuthScope::ExternalAPI => "ExternalAPI",
            AuthScope::RoboticsAction => "RoboticsAction",
        }
    }
}

impl AgentIdentity {
    /// Whether the identity was granted `scope`.
    pub fn has_scope(&self, scope: AuthScope) -> (held: bool)
        ensures
            held == holds_scope(*self, scope),
    {
        let mut i: usize = 0;
        while i < self.scopes.len()
            invariant
                i <= self.scopes.len(),
                forall|j: int| 0 <= j < i ==> self.scopes@[j] != scope,
            decreases self.scopes.len() - i,
        {
            if self.scopes[i] == scope {
                return true;
            }
            i += 1;
        }
        false
    }
}

impl PermissionDenied {
    /// The denial as one line of text.
    pub fn message(&self) -> (text: String)
        ensures
            text@ == denial_text(self.identity@, self.scope),
    {
        let mut text = String::from_str("Permission denied: agent '");
        text.append(self.identity.as_str());
        text.append("' missing required scope ");
        text.append(self.scope.name());
        text
    }
}

impl AuthorizationGatekeeper {
    /// Grants access exactly when `required` is among the scopes of
    /// `identity`; a denial names the identity and the missing scope.
    pub fn can_access(identity: &AgentIdentity, required: AuthScope) -> (res: Result<
        (),
        PermissionDenied,
    >)
        ensures
            res is Ok <==> holds_scope(*identity, required),
            res matches Err(denied) ==> denied.identity@ == identity.id@ && denied.scope
                == required,
    {
        if identity.has_scope(required) {
            Ok(())
        } else {
            Err(PermissionDenied { identity: identity.id.clone(), scope: required })
        }
    }

    /// Grants appending to the fact log to holders of `WriteFacts` and,
    /// failing that, to holders of `RoboticsAction`. A denial names the scope
    /// that was tried last, `RoboticsAction`.
    pub fn can_write_facts(identity: &AgentIdentity) -> (res: Result<(), PermissionDenied>)
        ensures
            res is Ok <==> may_write_facts(*identity),
            res matches Err(denied) ==> denied.identity@ == identity.id@ && denied.scope
                == AuthScope::RoboticsAction,
    {
        match Self::can_access(identity, AuthScope::WriteFacts) {
            Ok(()) => Ok(()),
            Err(_) => Self::can_access(identity, AuthScope::RoboticsAction),
        }
    }
}

} // verus!

use pagi_core::{AgentIdentity, AuthScope, AuthorizationGatekeeper, PAGICoreModel};

fn identity(id: &str, scopes: Vec<AuthScope>) -> AgentIdentity {
    AgentIdentity { id: id.to_string(), scopes }
}

#[test]
fn can_access_grants_a_held_scope() {
    let agent = identity("reader", vec![AuthScope::ReadFacts, AuthScope::ExternalAPI]);
    assert!(AuthorizationGatekeeper::can_access(&agent, AuthScope::ReadFacts).is_ok());
    assert!(AuthorizationGatekeeper::can_access(&agent, AuthScope::ExternalAPI).is_ok());
}

#[test]
fn can_access_denies_a_missing_scope_and_names_it() {
    let agent = identity("reader", vec![AuthScope::ReadFacts]);
    let denied = AuthorizationGatekeeper::can_access(&agent, AuthScope::WritePolicy)
        .expect_err("WritePolicy was never granted");
    assert_eq!(denied.identity, "reader");
    assert_eq!(denied.scope, AuthScope::WritePolicy);
    assert_eq!(
        denied.message(),
        "Permission denied: agent 'reader' missing required scope WritePolicy"
    );
}

#[test]
fn scopes_do_not_imply_each_other() {
    let agent = identity("writer", vec![AuthScope::WriteFacts]);
    assert!(AuthorizationGatekeeper::can_access(&agent, AuthScope::ReadFacts).is_err());
    assert!(AuthorizationGatekeeper::can_access(&agent, AuthScope::RoboticsAction).is_err());
    let nobody = identity("nobody", vec![]);
    assert!(AuthorizationGatekeeper::can_access(&nobody, AuthScope::ReadFacts).is_err());
}

#[test]
fn scope_names_are_the_variant_names() {
    assert_eq!(AuthScope::ReadFacts.name(), "ReadFacts");
    assert_eq!(AuthScope::WriteFacts.name(), "WriteFacts");
    assert_eq!(AuthScope::WritePolicy.name(), "WritePolicy");
    assert_eq!(AuthScope::ExternalAPI.name(), "ExternalAPI");
    assert_eq!(AuthScope::RoboticsAction.name(), "RoboticsAction");
}

#[test]
fn check_authorization_agrees_with_can_access() {
    let core = PAGICoreModel::new();
    let agent = identity("reader", vec![AuthScope::ReadFacts]);
    assert!(core.check_authorization(&agent, AuthScope::ReadFacts).is_ok());
    let denied = core
        .check_authorization(&agent, AuthScope::WriteFacts)
        .expect_err("a reader may not write");
    assert_eq!(denied.scope, AuthScope::WriteFacts);
    assert_eq!(denied.identity, "reader");
}

#[test]
fn a_reader_may_not_write_a_fact() {
    let agent = identity("reader", vec![AuthScope::ReadFacts]);
    let denied =
        AuthorizationGatekeeper::can_write_facts(&agent).expect_err("ReadFacts does not write");
    assert_eq!(denied.scope, AuthScope::RoboticsAction);
    assert_eq!(
        denied.message(),
        "Permission denied: agent 'reader' missing required scope RoboticsAction"
    );
}

#[test]
fn a_robotics_agent_may_write_a_fact() {
    let robot = identity("arm", vec![AuthScope::RoboticsAction]);
    assert!(AuthorizationGatekeeper::can_write_facts(&robot).is_ok());
    let writer = identity("scribe", vec![AuthScope::WriteFacts]);
    assert!(AuthorizationGatekeeper::can_write_facts(&writer).is_ok());
}

use part_registry::domain::{
    Action, ActionKind, AuditEntry, AuditId, AuthDecision, ChangeClass, Diff, IdentitySource,
    Operator, Proposal, RequestId, Signature, TargetRef, KeyId,
};
use part_registry::identity::{operator_from_keys, Authorizer};

struct BlockUnverifiedMutations;

impl Authorizer for BlockUnverifiedMutations {
    fn authorize(&self, op: &Operator, action: &Action) -> AuthDecision {
        let mutating = !matches!(action.kind, ActionKind::Print);
        if mutating && op.verified_at.is_none() {
            AuthDecision::Block { reason: "unverified identity".to_string() }
        } else {
            AuthDecision::Allow
        }
    }
}

fn git_operator() -> Operator {
    operator_from_keys(
        Some("Ada".to_string()),
        Some("ada@example.com".to_string()),
        Some("ABCD".to_string()),
    )
    .unwrap()
}

#[test]
fn default_diff_is_empty() {
    let d = Diff::default();
    assert!(d.adds.is_empty());
    assert!(d.deletes.is_empty());
    assert!(d.edits.is_empty());
    assert!(d.header_changes.is_empty());
}

#[test]
fn proposal_carries_its_author_and_classes() {
    let p = Proposal {
        diff: Diff::default(),
        batch_label: Some("B-1".to_string()),
        author: git_operator(),
        signatures: vec![Signature::GitCommit {
            commit_sha: "abc".to_string(),
            signer_key_id: KeyId("ABCD".to_string()),
        }],
        change_classification: vec![ChangeClass::RowAdd],
        message: "mint".to_string(),
    };
    assert_eq!(p.author.source, IdentitySource::GitConfig);
    assert_eq!(p.change_classification, vec![ChangeClass::RowAdd]);
}

#[test]
fn audit_entry_holds_request_and_target() {
    let e = AuditEntry {
        request_id: RequestId(uuid::Uuid::nil()),
        timestamp: time::OffsetDateTime::UNIX_EPOCH,
        actor: git_operator(),
        action: ActionKind::Mint,
        target: TargetRef::NoTarget,
        before: None,
        after: None,
        extra: serde_json::Value::Null,
        signatures: Vec::new(),
        chain_hash: None,
    };
    assert_eq!(e.target, TargetRef::NoTarget);
    assert!(e.request_id.0.is_nil());
    let id = AuditId(uuid::Uuid::nil());
    assert_eq!(id.0, e.request_id.0);
}

#[test]
fn an_authorizer_blocks_git_config_mutations() {
    let op = git_operator();
    let mint = Action { kind: ActionKind::Mint, classes: vec![ChangeClass::RowAdd] };
    let print = Action { kind: ActionKind::Print, classes: Vec::new() };
    let policy = BlockUnverifiedMutations;
    assert!(matches!(policy.authorize(&op, &mint), AuthDecision::Block { .. }));
    assert_eq!(policy.authorize(&op, &print), AuthDecision::Allow);
}

use part_registry::domain::{IdentitySource, KeyId, Operator, OperatorId};
use part_registry::identity::{operator_from_keys, read_key_reply, GitConfigIdentity, IdentityError};

// Running `git config --get <key>` happens outside the library; these cases
// hand it git's replies for a given config, as a successful run prints them.

fn reply(value: Option<&str>) -> Option<String> {
    match value {
        Some(v) => read_key_reply(true, Some(0), Some(format!("{v}\n")), "").unwrap(),
        None => read_key_reply(false, Some(1), Some(String::new()), "").unwrap(),
    }
}

fn current_for(name: Option<&str>, email: Option<&str>, signing_key: Option<&str>) -> Result<Operator, IdentityError> {
    operator_from_keys(reply(name), reply(email), reply(signing_key))
}

#[test]
fn adapters_name_their_git_binary() {
    assert_eq!(GitConfigIdentity::new().git_bin(), "git");
    assert_eq!(
        GitConfigIdentity::with_git_binary("definitely-not-a-real-git-binary-xyz").git_bin(),
        "definitely-not-a-real-git-binary-xyz"
    );
}

#[test]
fn current_returns_operator_with_canonical_id_and_no_verification() {
    let op = current_for(Some("Ada Lovelace"), Some("ada@example.com"), None).expect("identity should resolve");
    assert_eq!(op.id, OperatorId("git-config:ada@example.com".into()));
    assert_eq!(op.display_name, "Ada Lovelace");
    assert_eq!(op.source, IdentitySource::GitConfig);
    assert!(op.verified_at.is_none(), "git config is operator-asserted; verified_at must be None");
    assert!(op.pubkey.is_none());
    assert!(op.claims.is_empty());
}

#[test]
fn current_picks_up_signing_key_into_pubkey() {
    let op = current_for(Some("Grace"), Some("g@example.com"), Some("ABCD1234EF567890")).unwrap();
    assert_eq!(op.pubkey, Some(KeyId("ABCD1234EF567890".into())));
}

#[test]
fn refresh_reflects_mid_session_changes() {
    let before = current_for(Some("First"), Some("first@example.com"), None).unwrap();
    assert_eq!(before.display_name, "First");
    let after = current_for(Some("Second"), Some("second@example.com"), None).unwrap();
    assert_eq!(after.display_name, "Second");
    assert_eq!(after.id, OperatorId("git-config:second@example.com".into()));
}

#[test]
fn missing_user_name_yields_no_identity_error() {
    match current_for(None, Some("only-email@example.com"), None) {
        Err(IdentityError::NoIdentity(msg)) => assert!(msg.contains("user.name"), "got: {msg}"),
        other => panic!("expected NoIdentity, got {other:?}"),
    }
}

#[test]
fn missing_user_email_yields_no_identity_error() {
    match current_for(Some("NameOnly"), None, None) {
        Err(IdentityError::NoIdentity(msg)) => assert!(msg.contains("user.email"), "got: {msg}"),
        other => panic!("expected NoIdentity, got {other:?}"),
    }
}

#[test]
fn git_replies_are_read_as_the_adapter_documents() {
    assert_eq!(read_key_reply(true, Some(0), Some("  Ada \n".into()), ""), Ok(Some("Ada".into())));
    assert_eq!(read_key_reply(true, Some(0), Some(" \n".into()), ""), Ok(None));
    assert_eq!(read_key_reply(false, Some(1), Some(String::new()), ""), Ok(None));
    assert_eq!(
        read_key_reply(true, Some(0), None, ""),
        Err(IdentityError::Backend("git output was not UTF-8".into()))
    );
    assert_eq!(
        read_key_reply(false, Some(128), Some(String::new()), "fatal: bad config"),
        Err(IdentityError::Backend("git config exited with status Some(128): fatal: bad config".into()))
    );
    assert_eq!(
        read_key_reply(false, Some(-2), Some(String::new()), "x"),
        Err(IdentityError::Backend("git config exited with status Some(-2): x".into()))
    );
    assert_eq!(
        read_key_reply(false, None, Some(String::new()), "killed"),
        Err(IdentityError::Backend("git config exited with status None: killed".into()))
    );
}

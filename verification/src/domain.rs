//! Pure data types shared across the registry: identifiers, operators,
//! change classification, actions, authorization decisions, signatures
//! and proposal references.

use vstd::prelude::*;

verus! {

/// A point in time with its UTC offset.
#[verifier::external_type_specification]
#[verifier::external_body]
pub struct ExOffsetDateTime(time::OffsetDateTime);

/// A UUID.
#[verifier::external_type_specification]
#[verifier::external_body]
pub struct ExUuid(uuid::Uuid);

/// Canonical part identifier (e.g. `EX-PT100-2026-0001`).
#[derive(Clone, Debug, PartialEq, Eq, Hash)]
pub struct PartId(pub String);

/// Request identifier: a time-ordered UUIDv7, sortable in CSV cells.
#[derive(Debug)]
pub struct RequestId(pub uuid::Uuid);

/// UTC timestamp.
pub type Timestamp = time::OffsetDateTime;

/// Content or commit hash, hex-encoded.
#[derive(Clone, Debug, PartialEq, Eq, Hash)]
pub struct Hash(pub String);

/// Public-key identifier (GPG long key id, SSH fingerprint, ...).
#[derive(Clone, Debug, PartialEq, Eq, Hash)]
pub struct KeyId(pub String);

/// Canonical operator identifier (e.g. `github:someone`).
#[derive(Clone, Debug, PartialEq, Eq, Hash)]
pub struct OperatorId(pub String);

/// Where an operator identity came from.
#[derive(Clone, Debug, PartialEq, Eq)]
pub enum IdentitySource {
    GitConfig,
    GitHubOAuth,
    OidcGeneric { issuer: String },
    MtlsCert { fingerprint: String },
    EnvUser,
    OfflineClaim,
    SigstoreKeyless { fulcio: String },
}

/// An operator identity.
#[derive(Debug)]
pub struct Operator {
    pub id: OperatorId,
    pub display_name: String,
    pub source: IdentitySource,
    /// When an identity provider verified the identity; `None` for an
    /// operator-asserted one.
    pub verified_at: Option<Timestamp>,
    pub claims: std::collections::BTreeMap<String, String>,
    pub pubkey: Option<KeyId>,
}

/// Lightweight operator reference (id only).
#[derive(Clone, Debug, PartialEq, Eq, Hash)]
pub struct OperatorRef(pub OperatorId);

/// Structured diff over registry rows; rows are held as JSON values.
#[derive(Debug, Default)]
pub struct Diff {
    pub adds: Vec<serde_json::Value>,
    pub deletes: Vec<serde_json::Value>,
    pub edits: Vec<DiffEdit>,
    pub header_changes: Vec<HeaderChange>,
}

/// One edited row: its value before and after.
#[derive(Debug)]
pub struct DiffEdit {
    pub before: serde_json::Value,
    pub after: serde_json::Value,
}

/// A change of the header row.
#[derive(Clone, Debug)]
pub struct HeaderChange {
    pub before: Vec<String>,
    pub after: Vec<String>,
}

/// The row-shape categories the semantic-diff classifier emits.
#[derive(Clone, Copy, Debug, PartialEq, Eq, Hash, Structural)]
pub enum ChangeClass {
    RowAdd,
    RowDelete,
    RowVoid,
    RowBind,
    RowEdit,
    HeaderChange,
    BulkChange,
}

/// The kind of an action, as the audit log names it.
#[derive(Clone, Copy, Debug, PartialEq, Eq, Hash, Structural)]
pub enum ActionKind {
    Mint,
    Bind,
    Edit,
    Void,
    Delete,
    Print,
    Propose,
    Merge,
    PolicyDecision,
    IdentityVerify,
}

/// One in-flight change: its kind and the change classes it carries.
#[derive(Clone, Debug)]
pub struct Action {
    pub kind: ActionKind,
    pub classes: Vec<ChangeClass>,
}

/// An authorization verdict.
#[derive(Clone, Debug, PartialEq, Eq)]
pub enum AuthDecision {
    Allow,
    Warn { reason: String },
    Block { reason: String },
    RequiresElevation { approver_role: String },
}

/// Signature algorithms.
#[derive(Clone, Copy, Debug, PartialEq, Eq, Structural)]
#[non_exhaustive]
pub enum SigAlgorithm {
    GitCommitGpg,
    GitCommitSsh,
    /// Reserved; not produced yet.
    SigstoreKeyless,
    /// Reserved.
    Cosign,
}

/// A signature over a change.
#[derive(Clone, Debug, PartialEq, Eq)]
#[non_exhaustive]
pub enum Signature {
    GitCommit { commit_sha: String, signer_key_id: KeyId },
    Sigstore { cert: Vec<u8>, sig: Vec<u8>, rekor_proof: RekorProof },
}

/// A transparency-log inclusion proof.
#[derive(Clone, Debug, PartialEq, Eq)]
pub struct RekorProof {
    pub uuid: String,
    pub log_index: u64,
}

/// Who verified a signature.
#[derive(Clone, Debug, PartialEq, Eq)]
#[non_exhaustive]
pub enum VerificationSource {
    GitVerifyCommit,
    GitHubVerifiedApi,
    SigstoreRekor,
}

/// The outcome of verifying a signature.
#[derive(Debug)]
pub enum Verification {
    Verified { at: Timestamp, source: VerificationSource },
    Unverified { reason: String },
    Invalid { reason: String },
}

/// Audit-entry identifier (a UUID).
#[derive(Debug)]
pub struct AuditId(pub uuid::Uuid);

/// What an audit entry is about.
#[derive(Clone, Debug, PartialEq, Eq)]
pub enum TargetRef {
    PartId(PartId),
    BatchLabel(String),
    Diff { sha: String },
    ProposalRef(String),
    /// No target (the serialised form keeps the kind `none`).
    NoTarget,
}

/// One row of the audit log. `signatures` and `chain_hash` are carried
/// for forward compatibility and populated trivially today.
#[derive(Debug)]
pub struct AuditEntry {
    pub request_id: RequestId,
    pub timestamp: Timestamp,
    pub actor: Operator,
    pub action: ActionKind,
    pub target: TargetRef,
    pub before: Option<serde_json::Value>,
    pub after: Option<serde_json::Value>,
    pub extra: serde_json::Value,
    pub signatures: Vec<Signature>,
    pub chain_hash: Option<Hash>,
}

/// A proposed change set, with its author, signatures and classification.
#[derive(Debug)]
pub struct Proposal {
    pub diff: Diff,
    pub batch_label: Option<String>,
    pub author: Operator,
    pub signatures: Vec<Signature>,
    pub change_classification: Vec<ChangeClass>,
    pub message: String,
}

/// Where a proposal landed.
#[derive(Clone, Debug)]
pub struct ProposalRef {
    pub url: String,
    pub local_id: Option<String>,
}

} // verus!

//! Deploy-varying configuration: the sections a deployment sets, read
//! once at startup from defaults layered under environment variables.
//! Loading them is done outside; these are the shapes they load into.

use vstd::prelude::*;

verus! {

/// A filesystem path.
#[verifier::external_type_specification]
#[verifier::external_body]
pub struct ExPathBuf(std::path::PathBuf);

/// Why configuration could not be loaded.
#[derive(Debug, Clone, PartialEq, Eq)]
pub enum ConfigError {
    /// The layered sources did not parse into the configuration.
    Parse(String),
}

/// Where the data and code repositories live.
#[derive(Debug)]
pub struct RepoConfig {
    pub data_repo_url: String,
    pub code_repo_url: String,
    pub local_clone_path: std::path::PathBuf,
}

/// The storage adapter: `csv_git`, `sqlite`, `duckdb`, `dolt` or
/// `file_per_entry`.
#[derive(Debug, Clone)]
pub struct StorageConfig {
    pub adapter: String,
}

/// The identity adapter and how long a verification stays fresh.
#[derive(Debug, Clone)]
pub struct IdentityConfig {
    /// `git_config`, `github_oauth`, `env_user`, `oidc_generic`,
    /// `mtls_cert` or `sigstore_keyless`.
    pub adapter: String,
    pub verified_at_window_secs: u64,
}

/// The transport adapter: `github_pr`, `local_branch`, `webhook`,
/// `filesystem` or `dolt`.
#[derive(Debug, Clone)]
pub struct TransportConfig {
    pub adapter: String,
}

/// The signing adapter: `git_commit`, `sigstore` or `none`.
#[derive(Debug, Clone)]
pub struct SigningConfig {
    pub adapter: String,
}

/// Logging and the audit log's location.
#[derive(Debug)]
pub struct ObservabilityConfig {
    pub log_level: String,
    pub audit_log_path: std::path::PathBuf,
}

} // verus!

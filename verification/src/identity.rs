//! Operator identity from git config: the adapter's configuration, how a
//! `git config --get <key>` reply is read, and how the operator is built
//! from `user.name`, `user.email` and `user.signingkey`.
//!
//! Running `git` happens outside; this module receives what it replied.

use crate::domain::{Action, AuthDecision, IdentitySource, KeyId, Operator, OperatorId};
use crate::text::{dec, push_char, push_dec, push_str, push_string, to_chars, trim, trim_bounds, string_of};
use vstd::prelude::*;

verus! {

/// Why no operator identity could be had.
#[derive(Debug, Clone, PartialEq, Eq)]
pub enum IdentityError {
    /// No identity is configured.
    NoIdentity(String),
    /// An identity was found but failed verification.
    VerificationFailed(String),
    /// The identity backend failed; carries its error message.
    Backend(String),
}

/// Authentication: an adapter that says who the current operator is.
/// Adapters (git config, OAuth, OIDC, ...) implement it.
pub trait IdentityProvider: Send + Sync {
    /// The current operator.
    fn current(&self) -> Result<Operator, IdentityError>;

    /// The current operator, read afresh from the adapter's source.
    fn refresh(&self) -> Result<Operator, IdentityError>;
}

/// Authorization: the policy that decides whether an operator may take
/// an action.
pub trait Authorizer: Send + Sync {
    /// The verdict on `op` taking `action`.
    fn authorize(&self, op: &Operator, action: &Action) -> AuthDecision;
}

/// The git-config identity adapter. Stateless: every read asks git anew,
/// so a mid-session `git config user.email ...` is picked up.
#[derive(Debug, Clone)]
pub struct GitConfigIdentity {
    git_binary: Option<String>,
}

/// The binary an adapter runs: its override, else `git`.
pub open spec fn git_bin_of(g: Option<String>) -> Seq<char> {
    match g {
        Some(s) => s@,
        None => "git"@,
    }
}

impl GitConfigIdentity {
    /// The adapter's git binary override, if any.
    pub closed spec fn binary(&self) -> Option<String> {
        self.git_binary
    }

    /// An adapter that runs `git` from `$PATH`.
    pub fn new() -> (r: Self)
        ensures
            r.binary() is None,
    {
        GitConfigIdentity { git_binary: None }
    }

    /// An adapter that runs `git_binary` instead.
    pub fn with_git_binary(git_binary: &str) -> (r: Self)
        ensures
            r.binary() matches Some(s) && s@ == git_binary@,
    {
        GitConfigIdentity { git_binary: Some(git_binary.to_owned()) }
    }

    /// The binary to run.
    pub fn git_bin(&self) -> (r: &str)
        ensures
            r@ == git_bin_of(self.binary()),
    {
        match &self.git_binary {
            Some(s) => s.as_str(),
            None => "git",
        }
    }
}

/// `i32` in decimal, with a leading `-` when negative.
pub open spec fn int_text(v: i32) -> Seq<char> {
    if v < 0 {
        seq!['-'] + dec((-(v as int)) as nat)
    } else {
        dec(v as nat)
    }
}

/// `Option<i32>` as `{:?}` prints it.
pub open spec fn code_text(code: Option<i32>) -> Seq<char> {
    match code {
        Some(v) => "Some("@ + int_text(v) + ")"@,
        None => "None"@,
    }
}

/// What a `git config --get <key>` reply means: on success its trimmed
/// output (`None` when empty), `None` on exit status 1 (the key is
/// unset), and a backend error otherwise. `stdout` is `None` when the
/// output was not UTF-8.
pub open spec fn reply_meaning(success: bool, code: Option<i32>, stdout: Option<Seq<char>>, stderr: Seq<char>)
    -> Result<Option<Seq<char>>, Seq<char>> {
    if success {
        match stdout {
            None => Err("git output was not UTF-8"@),
            Some(s) => if trim(s).len() == 0 { Ok(None) } else { Ok(Some(trim(s))) },
        }
    } else if code == Some(1i32) {
        Ok(None)
    } else {
        Err("git config exited with status "@ + code_text(code) + ": "@ + stderr)
    }
}

/// Reads git's reply to `git config --get <key>`: `Ok(Some(value))` for a
/// set key, `Ok(None)` for an unset or empty one, and a backend error for
/// output that is not UTF-8 or any other exit status.
pub fn read_key_reply(success: bool, code: Option<i32>, stdout: Option<String>, stderr: &str)
    -> (r: Result<Option<String>, IdentityError>)
    ensures
        match reply_meaning(success, code, match stdout { Some(s) => Some(s@), None => None }, stderr@) {
            Ok(None) => r == Ok::<Option<String>, IdentityError>(None),
            Ok(Some(v)) => r matches Ok(Some(s)) && s@ == v,
            Err(m) => r matches Err(IdentityError::Backend(e)) && e@ == m,
        },
{
    if success {
        match stdout {
            None => Err(IdentityError::Backend("git output was not UTF-8".to_owned())),
            Some(s) => {
                let cs = to_chars(s.as_str());
                let (lo, hi) = trim_bounds(&cs);
                if lo == hi {
                    Ok(None)
                } else {
                    Ok(Some(string_of(&cs, lo, hi)))
                }
            },
        }
    } else {
        let unset = match code {
            Some(c) => c == 1,
            None => false,
        };
        if unset {
            Ok(None)
        } else {
            let mut m = "git config exited with status ".to_owned();
            match code {
                Some(v) => {
                    push_str(&mut m, "Some(");
                    if v < 0 {
                        push_char(&mut m, '-');
                        let mag: i64 = -(v as i64);
                        push_dec(&mut m, mag as u128);
                    } else {
                        push_dec(&mut m, v as u128);
                    }
                    push_str(&mut m, ")");
                },
                None => {
                    push_str(&mut m, "None");
                },
            }
            push_str(&mut m, ": ");
            push_str(&mut m, stderr);
            assert(m@ =~= "git config exited with status "@ + code_text(code) + ": "@ + stderr@);
            Err(IdentityError::Backend(m))
        }
    }
}

/// The message when `user.name` is unset.
pub open spec fn no_name_msg() -> Seq<char> {
    "git config user.name is unset; run `git config --global user.name 'Your Name'`"@
}

/// The message when `user.email` is unset.
pub open spec fn no_email_msg() -> Seq<char> {
    "git config user.email is unset; run `git config --global user.email 'you@example.com'`"@
}

/// The operator git config describes: id `git-config:<email>`, the
/// name, the signing key if any, sourced from git config, unverified
/// (git config is an operator-asserted claim) and without claims. A
/// missing name, then a missing email, is reported as no identity.
pub fn operator_from_keys(name: Option<String>, email: Option<String>, signing_key: Option<String>)
    -> (r: Result<Operator, IdentityError>)
    ensures
        name is None ==> (r matches Err(IdentityError::NoIdentity(m)) && m@ == no_name_msg()),
        name is Some && email is None ==> (r matches Err(IdentityError::NoIdentity(m)) && m@ == no_email_msg()),
        name is Some && email is Some ==> (r matches Ok(op) && {
            &&& op.id.0@ == "git-config:"@ + email->0@
            &&& op.display_name@ == name->0@
            &&& op.source == IdentitySource::GitConfig
            &&& op.verified_at is None
            &&& op.claims@ == Map::<String, String>::empty()
            &&& match signing_key {
                Some(k) => op.pubkey matches Some(p) && p.0@ == k@,
                None => op.pubkey is None,
            }
        }),
{
    let name = match name {
        Some(n) => n,
        None => {
            return Err(IdentityError::NoIdentity(
                "git config user.name is unset; run `git config --global user.name 'Your Name'`".to_owned(),
            ));
        },
    };
    let email = match email {
        Some(e) => e,
        None => {
            return Err(IdentityError::NoIdentity(
                "git config user.email is unset; run `git config --global user.email 'you@example.com'`".to_owned(),
            ));
        },
    };
    let mut id = "git-config:".to_owned();
    push_string(&mut id, &email);
    let pubkey = match signing_key {
        Some(k) => Some(KeyId(k)),
        None => None,
    };
    Ok(Operator {
        id: OperatorId(id),
        display_name: name,
        source: IdentitySource::GitConfig,
        verified_at: None,
        claims: std::collections::BTreeMap::new(),
        pubkey,
    })
}

} // verus!

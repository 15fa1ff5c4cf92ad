//! Failures of remote operations, and the rule on host keys that gives rise to some of them.
use vstd::prelude::*;

use crate::model::HostProfile;
use crate::model::ProfileModel;
use crate::text::{copy_optional, optional_text, same_text};

verus! {

/// The expected and the observed host key of a failed check.
#[derive(Debug, Default, PartialEq, Eq)]
pub struct HostKeyFailure {
    pub expected_fingerprint: Option<String>,
    pub observed_fingerprint: Option<String>,
    pub expected_algorithm: Option<String>,
    pub observed_algorithm: Option<String>,
}

pub struct HostKeyModel {
    pub expected_fingerprint: Option<Seq<char>>,
    pub observed_fingerprint: Option<Seq<char>>,
    pub expected_algorithm: Option<Seq<char>>,
    pub observed_algorithm: Option<Seq<char>>,
}

impl View for HostKeyFailure {
    type V = HostKeyModel;

    open spec fn view(&self) -> HostKeyModel {
        HostKeyModel {
            expected_fingerprint: optional_text(self.expected_fingerprint),
            observed_fingerprint: optional_text(self.observed_fingerprint),
            expected_algorithm: optional_text(self.expected_algorithm),
            observed_algorithm: optional_text(self.observed_algorithm),
        }
    }
}

impl Clone for HostKeyFailure {
    fn clone(&self) -> (r: Self)
        ensures
            r@ == self@,
    {
        HostKeyFailure {
            expected_fingerprint: copy_optional(&self.expected_fingerprint),
            observed_fingerprint: copy_optional(&self.observed_fingerprint),
            expected_algorithm: copy_optional(&self.expected_algorithm),
            observed_algorithm: copy_optional(&self.observed_algorithm),
        }
    }
}

/// Why a remote operation failed.
#[derive(Debug, PartialEq, Eq)]
pub struct RemoteFailure {
    pub status: &'static str,
    pub code: &'static str,
    pub message: String,
    pub host_alias: Option<String>,
    pub host_key: Option<HostKeyFailure>,
}

pub struct FailureModel {
    pub status: Seq<char>,
    pub code: Seq<char>,
    pub message: Seq<char>,
    pub host_alias: Option<Seq<char>>,
    pub host_key: Option<HostKeyModel>,
}

impl View for RemoteFailure {
    type V = FailureModel;

    open spec fn view(&self) -> FailureModel {
        FailureModel {
            status: self.status@,
            code: self.code@,
            message: self.message@,
            host_alias: optional_text(self.host_alias),
            host_key: match self.host_key {
                Some(details) => Some(details@),
                None => None,
            },
        }
    }
}

impl Clone for RemoteFailure {
    fn clone(&self) -> (r: Self)
        ensures
            r@ == self@,
    {
        RemoteFailure {
            status: self.status,
            code: self.code,
            message: self.message.clone(),
            host_alias: copy_optional(&self.host_alias),
            host_key: match &self.host_key {
                Some(details) => Some(details.clone()),
                None => None,
            },
        }
    }
}

/// A failure with nothing but a code and a message.
pub open spec fn failure(code: Seq<char>, message: Seq<char>) -> FailureModel {
    FailureModel { status: "error"@, code, message, host_alias: None, host_key: None }
}

/// The key that a server presented.
#[derive(Debug, PartialEq, Eq)]
pub struct ObservedHostKey {
    pub fingerprint: String,
    pub algorithm: String,
}

/// The fingerprint that the profile trusts; a blank one counts as none.
pub open spec fn trusted_fingerprint(host: ProfileModel) -> Option<Seq<char>> {
    match host.host_fingerprint {
        Some(text) => if text.len() > 0 {
            Some(text)
        } else {
            None
        },
        None => None,
    }
}

/// The failure of a host whose key is not the trusted one.
pub open spec fn host_key_failure(
    host: ProfileModel,
    fingerprint: Seq<char>,
    algorithm: Seq<char>,
) -> FailureModel {
    let expected = trusted_fingerprint(host);
    FailureModel {
        status: "error"@,
        code: if expected is Some {
            "HOSTKEY_MISMATCH"@
        } else {
            "HOSTKEY_UNKNOWN"@
        },
        message: if expected is Some {
            "The detected SSH host key differs from the trusted fingerprint."@
        } else {
            "The SSH host key has not been trusted yet."@
        },
        host_alias: Some(host.alias),
        host_key: Some(
            HostKeyModel {
                expected_fingerprint: expected,
                observed_fingerprint: Some(fingerprint),
                expected_algorithm: host.host_key_algorithm,
                observed_algorithm: Some(algorithm),
            },
        ),
    }
}

impl RemoteFailure {
    pub fn new(code: &'static str, message: &str) -> (r: Self)
        ensures
            r@ == failure(code@, message@),
    {
        RemoteFailure {
            status: "error",
            code,
            message: message.to_owned(),
            host_alias: None,
            host_key: None,
        }
    }

    pub fn host_key(host: &HostProfile, observed: ObservedHostKey) -> (r: Self)
        ensures
            r@ == host_key_failure(host@, observed.fingerprint@, observed.algorithm@),
    {
        let expected = match &host.host_fingerprint {
            Some(text) => if text.as_str().is_empty() {
                None
            } else {
                Some(text.clone())
            },
            None => None,
        };
        let known = expected.is_some();
        RemoteFailure {
            status: "error",
            code: if known {
                "HOSTKEY_MISMATCH"
            } else {
                "HOSTKEY_UNKNOWN"
            },
            message: (if known {
                "The detected SSH host key differs from the trusted fingerprint."
            } else {
                "The SSH host key has not been trusted yet."
            }).to_owned(),
            host_alias: Some(host.alias.clone()),
            host_key: Some(
                HostKeyFailure {
                    expected_fingerprint: expected,
                    observed_fingerprint: Some(observed.fingerprint),
                    expected_algorithm: copy_optional(&host.host_key_algorithm),
                    observed_algorithm: Some(observed.algorithm),
                },
            ),
        }
    }
}

/// The host keys of a session are accepted exactly when the fingerprint is the stored one.
pub open spec fn host_key_accepted(host: ProfileModel, fingerprint: Seq<char>) -> bool {
    host.host_fingerprint == Some(fingerprint)
}

/// Holds the key that a server presented against the profile. Nothing but the stored
/// fingerprint is accepted, and a profile without one accepts nothing.
pub fn check_host_key(host: &HostProfile, observed: Option<ObservedHostKey>) -> (r: Result<
    ObservedHostKey,
    RemoteFailure,
>)
    ensures
        match observed {
            None => r matches Err(error) && error@ == failure(
                "HOSTKEY_MISSING"@,
                "The server did not provide a host key."@,
            ),
            Some(key) => if host_key_accepted(host@, key.fingerprint@) {
                r == Ok::<ObservedHostKey, RemoteFailure>(key)
            } else {
                r matches Err(error) && error@ == host_key_failure(
                    host@,
                    key.fingerprint@,
                    key.algorithm@,
                )
            },
        },
{
    let key = match observed {
        Some(key) => key,
        None => {
            return Err(
                RemoteFailure::new("HOSTKEY_MISSING", "The server did not provide a host key."),
            );
        },
    };
    let accepted = match &host.host_fingerprint {
        Some(expected) => same_text(expected.as_str(), key.fingerprint.as_str()),
        None => false,
    };
    if accepted {
        Ok(key)
    } else {
        Err(RemoteFailure::host_key(host, key))
    }
}

/// A server is accepted with the key that is trusted for it and with no other: not with another
/// key, and not where no key is trusted.
pub proof fn only_the_trusted_key_is_accepted(host: ProfileModel, fingerprint: Seq<char>)
    ensures
        host_key_accepted(host, fingerprint) <==> host.host_fingerprint is Some
            && host.host_fingerprint->0 == fingerprint,
        host.host_fingerprint is None ==> !host_key_accepted(host, fingerprint),
{
}

/// A key that is not accepted is reported with its host, with what was seen and with what was
/// expected; a key that differs from a trusted one is told apart from one that nobody trusted yet.
pub proof fn refused_keys_are_reported(
    host: ProfileModel,
    fingerprint: Seq<char>,
    algorithm: Seq<char>,
)
    ensures
        ({
            let error = host_key_failure(host, fingerprint, algorithm);
            let known = host.host_fingerprint is Some && host.host_fingerprint->0.len() > 0;
            &&& error.status == "error"@
            &&& error.code == "HOSTKEY_MISMATCH"@ <==> known
            &&& error.code == "HOSTKEY_UNKNOWN"@ <==> !known
            &&& error.host_alias == Some(host.alias)
            &&& error.host_key is Some
            &&& error.host_key->0.observed_fingerprint == Some(fingerprint)
            &&& error.host_key->0.observed_algorithm == Some(algorithm)
            &&& known ==> error.host_key->0.expected_fingerprint == host.host_fingerprint
            &&& !known ==> error.host_key->0.expected_fingerprint is None
            &&& error.host_key->0.expected_algorithm == host.host_key_algorithm
        }),
{
    reveal_strlit("HOSTKEY_MISMATCH");
    reveal_strlit("HOSTKEY_UNKNOWN");
    assert("HOSTKEY_MISMATCH"@.len() == 16 && "HOSTKEY_UNKNOWN"@.len() == 15);
}

/// A failure carries the code and the message that it was made of, and counts as an error.
pub proof fn failures_carry_their_code(code: Seq<char>, message: Seq<char>)
    ensures
        failure(code, message).code == code,
        failure(code, message).message == message,
        failure(code, message).status == "error"@,
        failure(code, message).host_alias is None,
        failure(code, message).host_key is None,
{
}

} // verus!

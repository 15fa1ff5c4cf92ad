//! Limits, keys and results of remote operations.
use vstd::prelude::*;

use crate::failure::{failure, RemoteFailure};
use crate::id::Id;
use crate::text::{byte_len, copy_optional, optional_text, utf8_len};

verus! {

/// Bytes of text that a command may be given on its standard input.
pub const MAX_STDIN_BYTES: usize = 1024 * 1024;

/// Identities of one agent that are tried or listed.
pub const MAX_AGENT_IDENTITIES: usize = 32;

pub const TOTAL_TIMEOUT_CODE: &'static str = "OPERATION_TIMEOUT";

/// Time limits in milliseconds, the output limit, and how the connection is shared.
#[derive(Debug, Clone, Copy, PartialEq, Eq, Structural)]
pub struct OperationLimits {
    pub total_timeout: Option<u64>,
    pub connect_timeout: Option<u64>,
    pub command_timeout: Option<u64>,
    pub output_bytes: Option<usize>,
    pub batch_scope: Option<Id>,
    pub retain_sessions: bool,
}

impl Default for OperationLimits {
    /// No limit is set, and no session is kept.
    fn default() -> (r: Self)
        ensures
            r == (OperationLimits {
                total_timeout: None,
                connect_timeout: None,
                command_timeout: None,
                output_bytes: None,
                batch_scope: None,
                retain_sessions: false,
            }),
    {
        OperationLimits {
            total_timeout: None,
            connect_timeout: None,
            command_timeout: None,
            output_bytes: None,
            batch_scope: None,
            retain_sessions: false,
        }
    }
}

/// A host key that was seen and accepted while connecting.
#[derive(Debug, PartialEq, Eq)]
pub struct VerifiedHostKey {
    pub host_id: Id,
    pub alias: String,
    pub fingerprint: String,
    pub algorithm: String,
    pub verified_at_unix: u64,
}

pub struct VerifiedModel {
    pub host_id: Id,
    pub alias: Seq<char>,
    pub fingerprint: Seq<char>,
    pub algorithm: Seq<char>,
    pub verified_at_unix: u64,
}

impl View for VerifiedHostKey {
    type V = VerifiedModel;

    open spec fn view(&self) -> VerifiedModel {
        VerifiedModel {
            host_id: self.host_id,
            alias: self.alias@,
            fingerprint: self.fingerprint@,
            algorithm: self.algorithm@,
            verified_at_unix: self.verified_at_unix,
        }
    }
}

impl Clone for VerifiedHostKey {
    fn clone(&self) -> (r: Self)
        ensures
            r@ == self@,
    {
        VerifiedHostKey {
            host_id: self.host_id,
            alias: self.alias.clone(),
            fingerprint: self.fingerprint.clone(),
            algorithm: self.algorithm.clone(),
            verified_at_unix: self.verified_at_unix,
        }
    }
}

/// The accepted keys of a list of sessions.
pub open spec fn verified_models(keys: Seq<VerifiedHostKey>) -> Seq<VerifiedModel> {
    Seq::new(keys.len(), |i: int| keys[i]@)
}

pub fn copy_verified(keys: &Vec<VerifiedHostKey>) -> (r: Vec<VerifiedHostKey>)
    ensures
        verified_models(r@) == verified_models(keys@),
{
    let mut out: Vec<VerifiedHostKey> = Vec::new();
    let mut i: usize = 0;
    while i < keys.len()
        invariant
            i <= keys@.len(),
            out@.len() == i,
            forall|j: int| 0 <= j < i ==> (#[trigger] out@[j])@ == keys@[j]@,
        decreases keys@.len() - i,
    {
        out.push(keys[i].clone());
        i = i + 1;
    }
    assert(verified_models(out@) =~= verified_models(keys@));
    out
}

/// What one command on one host left behind.
#[derive(Debug, PartialEq, Eq)]
pub struct RemoteResult {
    pub status: &'static str,
    pub alias: String,
    pub exit_code: i32,
    pub stdout: String,
    pub stderr: String,
    pub output_truncated: bool,
    pub host_fingerprint: Option<String>,
    pub host_key_algorithm: Option<String>,
    pub auth_key_fingerprint: Option<String>,
    pub verified_host_keys: Vec<VerifiedHostKey>,
}

#[verifier::ext_equal]
pub struct ResultModel {
    pub status: Seq<char>,
    pub alias: Seq<char>,
    pub exit_code: i32,
    pub stdout: Seq<char>,
    pub stderr: Seq<char>,
    pub output_truncated: bool,
    pub host_fingerprint: Option<Seq<char>>,
    pub host_key_algorithm: Option<Seq<char>>,
    pub auth_key_fingerprint: Option<Seq<char>>,
    pub verified_host_keys: Seq<VerifiedModel>,
}

impl View for RemoteResult {
    type V = ResultModel;

    open spec fn view(&self) -> ResultModel {
        ResultModel {
            status: self.status@,
            alias: self.alias@,
            exit_code: self.exit_code,
            stdout: self.stdout@,
            stderr: self.stderr@,
            output_truncated: self.output_truncated,
            host_fingerprint: optional_text(self.host_fingerprint),
            host_key_algorithm: optional_text(self.host_key_algorithm),
            auth_key_fingerprint: optional_text(self.auth_key_fingerprint),
            verified_host_keys: verified_models(self.verified_host_keys@),
        }
    }
}

/// One command of several on the same host.
#[derive(Debug, PartialEq, Eq)]
pub struct RemoteCommandResult {
    pub index: usize,
    pub status: &'static str,
    pub exit_code: Option<i32>,
    pub stdout: String,
    pub stderr: String,
    pub output_truncated: bool,
    pub error_code: Option<&'static str>,
    pub error_message: Option<String>,
}

pub struct CommandModel {
    pub index: usize,
    pub status: Seq<char>,
    pub exit_code: Option<i32>,
    pub stdout: Seq<char>,
    pub stderr: Seq<char>,
    pub output_truncated: bool,
    pub error_code: Option<Seq<char>>,
    pub error_message: Option<Seq<char>>,
}

impl View for RemoteCommandResult {
    type V = CommandModel;

    open spec fn view(&self) -> CommandModel {
        CommandModel {
            index: self.index,
            status: self.status@,
            exit_code: self.exit_code,
            stdout: self.stdout@,
            stderr: self.stderr@,
            output_truncated: self.output_truncated,
            error_code: match self.error_code {
                Some(code) => Some(code@),
                None => None,
            },
            error_message: optional_text(self.error_message),
        }
    }
}

/// The models of a list of command results.
pub open spec fn command_models(results: Seq<RemoteCommandResult>) -> Seq<CommandModel> {
    Seq::new(results.len(), |i: int| results[i]@)
}

/// What several commands on one host left behind.
#[derive(Debug, PartialEq, Eq)]
pub struct RemoteManyResult {
    pub status: &'static str,
    pub alias: String,
    pub results: Vec<RemoteCommandResult>,
    pub host_fingerprint: Option<String>,
    pub host_key_algorithm: Option<String>,
    pub auth_key_fingerprint: Option<String>,
    pub verified_host_keys: Vec<VerifiedHostKey>,
}

#[verifier::ext_equal]
pub struct ManyModel {
    pub status: Seq<char>,
    pub alias: Seq<char>,
    pub results: Seq<CommandModel>,
    pub host_fingerprint: Option<Seq<char>>,
    pub host_key_algorithm: Option<Seq<char>>,
    pub auth_key_fingerprint: Option<Seq<char>>,
    pub verified_host_keys: Seq<VerifiedModel>,
}

impl View for RemoteManyResult {
    type V = ManyModel;

    open spec fn view(&self) -> ManyModel {
        ManyModel {
            status: self.status@,
            alias: self.alias@,
            results: command_models(self.results@),
            host_fingerprint: optional_text(self.host_fingerprint),
            host_key_algorithm: optional_text(self.host_key_algorithm),
            auth_key_fingerprint: optional_text(self.auth_key_fingerprint),
            verified_host_keys: verified_models(self.verified_host_keys@),
        }
    }
}

/// A key that an SSH agent offers.
#[derive(Debug, PartialEq, Eq)]
pub struct AgentKeyInfo {
    pub fingerprint: String,
    pub algorithm: String,
    pub comment: String,
    pub certificate: bool,
    pub public_key: Option<String>,
}

pub struct AgentKeyModel {
    pub fingerprint: Seq<char>,
    pub algorithm: Seq<char>,
    pub comment: Seq<char>,
    pub certificate: bool,
    pub public_key: Option<Seq<char>>,
}

impl View for AgentKeyInfo {
    type V = AgentKeyModel;

    open spec fn view(&self) -> AgentKeyModel {
        AgentKeyModel {
            fingerprint: self.fingerprint@,
            algorithm: self.algorithm@,
            comment: self.comment@,
            certificate: self.certificate,
            public_key: optional_text(self.public_key),
        }
    }
}

impl Clone for AgentKeyInfo {
    fn clone(&self) -> (r: Self)
        ensures
            r@ == self@,
    {
        AgentKeyInfo {
            fingerprint: self.fingerprint.clone(),
            algorithm: self.algorithm.clone(),
            comment: self.comment.clone(),
            certificate: self.certificate,
            public_key: copy_optional(&self.public_key),
        }
    }
}

/// The input of a command, if it has one, is at most one mebibyte of UTF-8.
pub open spec fn stdin_fits(stdin: Option<&str>) -> bool {
    stdin matches Some(text) ==> utf8_len(text@) <= MAX_STDIN_BYTES
}

pub fn validate_stdin(stdin: Option<&str>) -> (r: Result<(), RemoteFailure>)
    ensures
        r is Ok <==> stdin_fits(stdin),
        r matches Err(error) ==> error@ == failure(
            "STDIN_TOO_LARGE"@,
            "Optional stdin is limited to 1 MiB of UTF-8 text."@,
        ),
{
    if let Some(text) = stdin {
        if byte_len(text) > MAX_STDIN_BYTES {
            return Err(
                RemoteFailure::new(
                    "STDIN_TOO_LARGE",
                    "Optional stdin is limited to 1 MiB of UTF-8 text.",
                ),
            );
        }
    }
    Ok(())
}

/// A command may be given up to a mebibyte of input, and need not be given any.
pub proof fn input_is_bounded(text: &str)
    ensures
        stdin_fits(None),
        stdin_fits(Some(text)) <==> utf8_len(text@) <= 1_048_576,
{
}

} // verus!

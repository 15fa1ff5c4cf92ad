//! Running commands on a host: where a request goes, and how the outcome of one or of several
//! commands is put together.
use vstd::prelude::*;

use crate::capture::{CommandResult, MAX_CAPTURE_BYTES};
use crate::failure::{failure, FailureModel, RemoteFailure};
use crate::fido::{looks_like_fido_handle, name_of_security_key};
use crate::id::Id;
use crate::model::{
    has_chain, is_chain, models, models_of, resolve_ssh_chain, HostProfile, ProfileModel, Protocol,
    SshAuth,
};
use crate::pool::{marked_too, PoolModel, PooledSession, SessionKey, SessionPool};
use crate::remote::{
    command_models, stdin_fits, validate_stdin, verified_models, AgentKeyInfo, AgentKeyModel,
    CommandModel, ManyModel, OperationLimits, RemoteCommandResult, RemoteManyResult, RemoteResult,
    ResultModel, VerifiedHostKey, VerifiedModel, MAX_AGENT_IDENTITIES,
};
use crate::text::{copy_optional, optional_text, same_text, trim, trimmed};

verus! {

/// The failure of a host whose chain does not resolve.
pub open spec fn invalid_chain() -> FailureModel {
    failure("INVALID_HOST_CHAIN"@, "The SSH host chain is invalid."@)
}

/// The hosts to connect through, outermost first.
pub fn connection_chain<'a>(profile: &'a HostProfile, hosts: &'a [HostProfile]) -> (r: Result<
    Vec<&'a HostProfile>,
    RemoteFailure,
>)
    ensures
        match r {
            Ok(chain) => is_chain(profile@, models(hosts@), models_of(chain@)),
            Err(error) => error@ == invalid_chain() && (profile@.protocol != Protocol::Ssh
                || !has_chain(profile@, models(hosts@))),
        },
{
    match resolve_ssh_chain(profile, hosts) {
        Ok(chain) => Ok(chain),
        Err(_) => Err(RemoteFailure::new("INVALID_HOST_CHAIN", "The SSH host chain is invalid.")),
    }
}

/// Bytes that the commands of an operation may capture together.
pub fn capture_limit(limits: &OperationLimits) -> (r: usize)
    ensures
        r == match limits.output_bytes {
            Some(bytes) => bytes,
            None => MAX_CAPTURE_BYTES,
        },
{
    match limits.output_bytes {
        Some(bytes) => bytes,
        None => MAX_CAPTURE_BYTES,
    }
}

/// Where a command runs.
#[derive(Debug, Clone, Copy, PartialEq, Eq, Structural)]
pub enum Route {
    Ssh,
    Telnet,
}

/// The failure of input for a host without an input channel.
pub open spec fn stdin_unsupported() -> FailureModel {
    failure(
        "STDIN_UNSUPPORTED"@,
        "Optional stdin requires an SSH host; Telnet has no separate command input channel."@,
    )
}

/// Sends a command with optional input on its way. Input that is too large is refused for every
/// host; any input, even an empty one, is refused for Telnet, before anything is read or opened.
pub fn execute_with_input_route(profile: &HostProfile, stdin: Option<&str>) -> (r: Result<
    Route,
    RemoteFailure,
>)
    ensures
        match r {
            Ok(route) => stdin_fits(stdin) && match profile@.protocol {
                Protocol::Ssh => route == Route::Ssh,
                Protocol::Telnet => route == Route::Telnet && stdin is None,
            },
            Err(error) => if !stdin_fits(stdin) {
                error@ == failure(
                    "STDIN_TOO_LARGE"@,
                    "Optional stdin is limited to 1 MiB of UTF-8 text."@,
                )
            } else {
                profile@.protocol == Protocol::Telnet && stdin is Some && error@
                    == stdin_unsupported()
            },
        },
{
    if let Err(error) = validate_stdin(stdin) {
        return Err(error);
    }
    match profile.protocol {
        Protocol::Ssh => Ok(Route::Ssh),
        Protocol::Telnet => if stdin.is_some() {
            Err(
                RemoteFailure::new(
                    "STDIN_UNSUPPORTED",
                    "Optional stdin requires an SSH host; Telnet has no separate command input channel.",
                ),
            )
        } else {
            Ok(Route::Telnet)
        },
    }
}

/// Several commands run on SSH hosts only.
pub fn execute_many_route(profile: &HostProfile) -> (r: Result<Route, RemoteFailure>)
    ensures
        match r {
            Ok(route) => profile@.protocol == Protocol::Ssh && route == Route::Ssh,
            Err(error) => profile@.protocol == Protocol::Telnet && error@ == failure(
                "SSH_REQUIRED"@,
                "exec_many is available only for SSH hosts."@,
            ),
        },
{
    match profile.protocol {
        Protocol::Ssh => Ok(Route::Ssh),
        Protocol::Telnet => Err(
            RemoteFailure::new("SSH_REQUIRED", "exec_many is available only for SSH hosts."),
        ),
    }
}

/// The command that a connection test runs.
pub const PROBE_COMMAND: &'static str = "hostname";

/// The status word for an exit code.
pub open spec fn exit_status_word(exit_code: i32) -> Seq<char> {
    if exit_code == 0 {
        "ok"@
    } else {
        "remote_error"@
    }
}

fn status_word(exit_code: i32) -> (r: &'static str)
    ensures
        r@ == exit_status_word(exit_code),
{
    if exit_code == 0 {
        "ok"
    } else {
        "remote_error"
    }
}

/// The algorithm of the last accepted host key.
pub open spec fn last_algorithm(keys: Seq<VerifiedModel>) -> Option<Seq<char>> {
    if keys.len() == 0 {
        None
    } else {
        Some(keys.last().algorithm)
    }
}

/// The key that the last hop authenticated with.
pub open spec fn last_fingerprint(keys: Seq<Option<String>>) -> Option<Seq<char>> {
    if keys.len() == 0 {
        None
    } else {
        optional_text(keys.last())
    }
}

fn algorithm_of_last(keys: &Vec<VerifiedHostKey>) -> (r: Option<String>)
    ensures
        optional_text(r) == last_algorithm(verified_models(keys@)),
{
    if keys.len() == 0 {
        None
    } else {
        Some(keys[keys.len() - 1].algorithm.clone())
    }
}

fn fingerprint_of_last(keys: &Vec<Option<String>>) -> (r: Option<String>)
    ensures
        optional_text(r) == last_fingerprint(keys@),
{
    if keys.len() == 0 {
        None
    } else {
        copy_optional(&keys[keys.len() - 1])
    }
}

/// The result of one command, with what is known of the connection that ran it.
pub open spec fn reported(
    profile: ProfileModel,
    command: CommandResult,
    verified_host_keys: Seq<VerifiedHostKey>,
    auth_keys: Seq<Option<String>>,
) -> ResultModel {
    ResultModel {
        status: exit_status_word(command.exit_code),
        alias: profile.alias,
        exit_code: command.exit_code,
        stdout: command.stdout@,
        stderr: command.stderr@,
        output_truncated: command.output_truncated,
        host_fingerprint: profile.host_fingerprint,
        host_key_algorithm: last_algorithm(verified_models(verified_host_keys)),
        auth_key_fingerprint: last_fingerprint(auth_keys),
        verified_host_keys: verified_models(verified_host_keys),
    }
}

pub fn single_result(
    profile: &HostProfile,
    command: CommandResult,
    verified_host_keys: Vec<VerifiedHostKey>,
    auth_keys: &Vec<Option<String>>,
) -> (r: RemoteResult)
    ensures
        r@ == reported(profile@, command, verified_host_keys@, auth_keys@),
        command.exit_code == 0 ==> r.status@ == "ok"@,
        command.exit_code != 0 ==> r.status@ == "remote_error"@,
        r.exit_code == command.exit_code,
        r.alias@ == profile.alias@,
        r.stdout@ == command.stdout@,
        r.stderr@ == command.stderr@,
        r.output_truncated == command.output_truncated,
        r.verified_host_keys == verified_host_keys,
        profile.host_fingerprint is Some == r.host_fingerprint is Some,
        profile.host_fingerprint is Some ==> r.host_fingerprint->0@ == profile.host_fingerprint->0@,
        verified_host_keys@.len() > 0 ==> r.host_key_algorithm is Some && r.host_key_algorithm->0@
            == verified_host_keys@.last().algorithm@,
        verified_host_keys@.len() == 0 ==> r.host_key_algorithm is None,
{
    RemoteResult {
        status: status_word(command.exit_code),
        alias: profile.alias.clone(),
        exit_code: command.exit_code,
        stdout: command.stdout,
        stderr: command.stderr,
        output_truncated: command.output_truncated,
        host_fingerprint: copy_optional(&profile.host_fingerprint),
        host_key_algorithm: algorithm_of_last(&verified_host_keys),
        auth_key_fingerprint: fingerprint_of_last(auth_keys),
        verified_host_keys,
    }
}

/// What a command that never started looks like.
pub open spec fn not_started(index: usize) -> CommandModel {
    CommandModel {
        index,
        status: "cancelled"@,
        exit_code: None,
        stdout: Seq::empty(),
        stderr: Seq::empty(),
        output_truncated: false,
        error_code: Some("COMMAND_CANCELLED"@),
        error_message: Some("The command did not start."@),
    }
}

/// What a command looks like once it ended or failed.
pub open spec fn ended(index: usize, outcome: Result<CommandResult, RemoteFailure>) -> CommandModel {
    match outcome {
        Ok(result) => CommandModel {
            index,
            status: exit_status_word(result.exit_code),
            exit_code: Some(result.exit_code),
            stdout: result.stdout@,
            stderr: result.stderr@,
            output_truncated: result.output_truncated,
            error_code: None,
            error_message: None,
        },
        Err(error) => CommandModel {
            index,
            status: "error"@,
            exit_code: None,
            stdout: Seq::empty(),
            stderr: Seq::empty(),
            output_truncated: false,
            error_code: Some(error@.code),
            error_message: Some(error@.message),
        },
    }
}

/// Commands that run at a time: at least one, and not more than there are.
pub open spec fn command_slots(max_concurrency: usize, commands: nat) -> int {
    let wanted: int = if max_concurrency >= 1 {
        max_concurrency as int
    } else {
        1
    };
    let useful: int = if commands >= 1 {
        commands as int
    } else {
        1
    };
    if wanted <= useful {
        wanted
    } else {
        useful
    }
}

/// Several commands on one host: they start in order, a bounded number runs at a time.
#[derive(Debug)]
pub struct ManyRun {
    pub slots: usize,
    pub next: usize,
    pub running: usize,
    pub results: Vec<RemoteCommandResult>,
}

impl ManyRun {
    pub open spec fn inv(self) -> bool {
        &&& self.running <= self.slots
        &&& self.slots >= 1
        &&& self.running <= self.next <= self.results@.len()
        &&& forall|i: int|
            0 <= i < self.results@.len() ==> (#[trigger] self.results@[i])@.index == i
        &&& forall|i: int|
            self.next <= i < self.results@.len() ==> (#[trigger] self.results@[i])@
                == not_started(i as usize)
    }

    /// Nothing has started yet.
    pub fn new(commands: usize, max_concurrency: usize) -> (r: Self)
        ensures
            r.inv(),
            r.slots == command_slots(max_concurrency, commands as nat),
            r.slots == 1 || (r.slots <= max_concurrency && r.slots <= commands),
            r.slots < max_concurrency ==> r.slots >= commands,
            r.next == 0,
            r.running == 0,
            r.results@.len() == commands,
    {
        let wanted: usize = if max_concurrency >= 1 {
            max_concurrency
        } else {
            1
        };
        let useful: usize = if commands >= 1 {
            commands
        } else {
            1
        };
        let slots: usize = if wanted <= useful {
            wanted
        } else {
            useful
        };
        let mut results: Vec<RemoteCommandResult> = Vec::new();
        let mut i: usize = 0;
        while i < commands
            invariant
                i <= commands,
                results@.len() == i,
                forall|j: int| 0 <= j < i ==> (#[trigger] results@[j])@ == not_started(j as usize),
            decreases commands - i,
        {
            results.push(
                RemoteCommandResult {
                    index: i,
                    status: "cancelled",
                    exit_code: None,
                    stdout: String::new(),
                    stderr: String::new(),
                    output_truncated: false,
                    error_code: Some("COMMAND_CANCELLED"),
                    error_message: Some("The command did not start.".to_owned()),
                },
            );
            i = i + 1;
        }
        ManyRun { slots, next: 0, running: 0, results }
    }

    /// The next command to start, if one is left and a slot is free.
    pub fn start_next(&mut self) -> (r: Option<usize>)
        requires
            old(self).inv(),
        ensures
            final(self).inv(),
            final(self).slots == old(self).slots,
            final(self).results == old(self).results,
            moves_on(old(self).next, final(self).next, r),
            if old(self).next < old(self).results@.len() && old(self).running < old(self).slots {
                &&& r is Some
                &&& final(self).running == old(self).running + 1
            } else {
                &&& r is None
                &&& final(self).running == old(self).running
            },
    {
        if self.next < self.results.len() && self.running < self.slots {
            let index: usize = self.next;
            self.next = self.next + 1;
            self.running = self.running + 1;
            Some(index)
        } else {
            None
        }
    }

    /// A command that had started is over.
    pub fn finish(&mut self, index: usize, outcome: Result<CommandResult, RemoteFailure>)
        requires
            old(self).inv(),
            old(self).running > 0,
            index < old(self).next,
        ensures
            final(self).inv(),
            final(self).slots == old(self).slots,
            moves_on(old(self).next, final(self).next, None),
            final(self).running == old(self).running - 1,
            command_models(final(self).results@) == command_models(old(self).results@).update(
                index as int,
                ended(index, outcome),
            ),
            match outcome {
                Ok(result) => {
                    &&& final(self).results@[index as int].exit_code == Some(result.exit_code)
                    &&& result.exit_code == 0 ==> final(self).results@[index as int].status@
                        == "ok"@
                    &&& result.exit_code != 0 ==> final(self).results@[index as int].status@
                        == "remote_error"@
                    &&& final(self).results@[index as int].stdout@ == result.stdout@
                    &&& final(self).results@[index as int].stderr@ == result.stderr@
                    &&& final(self).results@[index as int].output_truncated
                        == result.output_truncated
                    &&& final(self).results@[index as int].error_code is None
                },
                Err(error) => {
                    &&& final(self).results@[index as int].status@ == "error"@
                    &&& final(self).results@[index as int].exit_code is None
                    &&& final(self).results@[index as int].error_code is Some
                    &&& final(self).results@[index as int].error_code->0@ == error.code@
                    &&& final(self).results@[index as int].error_message is Some
                    &&& final(self).results@[index as int].error_message->0@ == error.message@
                },
            },
    {
        let result = match outcome {
            Ok(result) => RemoteCommandResult {
                index,
                status: status_word(result.exit_code),
                exit_code: Some(result.exit_code),
                stdout: result.stdout,
                stderr: result.stderr,
                output_truncated: result.output_truncated,
                error_code: None,
                error_message: None,
            },
            Err(error) => RemoteCommandResult {
                index,
                status: "error",
                exit_code: None,
                stdout: String::new(),
                stderr: String::new(),
                output_truncated: false,
                error_code: Some(error.code),
                error_message: Some(error.message),
            },
        };
        self.running = self.running - 1;
        let ghost fresh = result@;
        assert(fresh == ended(index, outcome));
        self.results.set(index, result);
        assert(command_models(self.results@) =~= command_models(old(self).results@).update(
            index as int,
            ended(index, outcome),
        ));
    }

    /// Every command has started and ended.
    pub fn is_over(&self) -> (r: bool)
        requires
            self.inv(),
        ensures
            r == (self.next == self.results@.len() && self.running == 0),
    {
        self.next == self.results.len() && self.running == 0
    }

    /// The result of the whole operation.
    pub fn conclude(
        self,
        profile: &HostProfile,
        verified_host_keys: Vec<VerifiedHostKey>,
        auth_keys: &Vec<Option<String>>,
    ) -> (r: RemoteManyResult)
        ensures
            r@ == (ManyModel {
                status: many_status(command_models(self.results@)),
                alias: profile@.alias,
                results: command_models(self.results@),
                host_fingerprint: profile@.host_fingerprint,
                host_key_algorithm: last_algorithm(verified_models(verified_host_keys@)),
                auth_key_fingerprint: last_fingerprint(auth_keys@),
                verified_host_keys: verified_models(verified_host_keys@),
            }),
    {
        let mut all_ok = true;
        let mut any_error = false;
        let mut i: usize = 0;
        let ghost models = command_models(self.results@);
        while i < self.results.len()
            invariant
                i <= self.results@.len(),
                models == command_models(self.results@),
                all_ok == (forall|j: int| 0 <= j < i ==> (#[trigger] models[j]).status == "ok"@),
                any_error == (exists|j: int|
                    0 <= j < i && (#[trigger] models[j]).status == "error"@),
            decreases self.results@.len() - i,
        {
            let ok = same_text(self.results[i].status, "ok");
            let error = same_text(self.results[i].status, "error");
            assert(models[i as int].status == self.results@[i as int].status@);
            all_ok = all_ok && ok;
            any_error = any_error || error;
            i = i + 1;
        }
        let status: &'static str = if all_ok {
            "ok"
        } else if any_error {
            "completed_with_errors"
        } else {
            "completed_with_remote_errors"
        };
        RemoteManyResult {
            status,
            alias: profile.alias.clone(),
            results: self.results,
            host_fingerprint: copy_optional(&profile.host_fingerprint),
            host_key_algorithm: algorithm_of_last(&verified_host_keys),
            auth_key_fingerprint: fingerprint_of_last(auth_keys),
            verified_host_keys,
        }
    }
}

/// The status of a row of commands: fine, with failures to run some, or with exit codes other
/// than zero.
pub open spec fn many_status(results: Seq<CommandModel>) -> Seq<char> {
    if forall|i: int| 0 <= i < results.len() ==> (#[trigger] results[i]).status == "ok"@ {
        "ok"@
    } else if exists|i: int|
        0 <= i < results.len() && (#[trigger] results[i]).status == "error"@ {
        "completed_with_errors"@
    } else {
        "completed_with_remote_errors"@
    }
}

/// What one step does to the position of the next piece of work: the piece there starts, or none
/// does.
pub open spec fn moves_on(before: usize, after: usize, started: Option<usize>) -> bool {
    match started {
        Some(index) => index == before && after == before + 1,
        None => after == before,
    }
}

proof fn lemma_positions_grow(positions: Seq<usize>, started: Seq<Option<usize>>, i: int, j: int)
    requires
        positions.len() == started.len() + 1,
        forall|k: int|
            0 <= k < started.len() ==> moves_on(
                positions[k],
                positions[k + 1],
                #[trigger] started[k],
            ),
        0 <= i <= j <= started.len(),
    ensures
        positions[i] <= positions[j],
    decreases j - i,
{
    if i < j {
        lemma_positions_grow(positions, started, i, j - 1);
        assert(moves_on(positions[j - 1], positions[j], started[j - 1]));
    }
}

/// However the steps of an operation follow each other, no two of them start the same piece of
/// work: what failed is not tried again.
pub proof fn nothing_is_started_twice(
    positions: Seq<usize>,
    started: Seq<Option<usize>>,
    i: int,
    j: int,
)
    requires
        positions.len() == started.len() + 1,
        forall|k: int|
            0 <= k < started.len() ==> moves_on(
                positions[k],
                positions[k + 1],
                #[trigger] started[k],
            ),
        0 <= i < j < started.len(),
        started[i] is Some,
    ensures
        started[i] != started[j],
{
    assert(moves_on(positions[i], positions[i + 1], started[i]));
    assert(moves_on(positions[j], positions[j + 1], started[j]));
    lemma_positions_grow(positions, started, i + 1, j);
}

/// While commands are left, one runs or the next one can start: the operation never gets stuck.
pub proof fn many_commands_make_progress(run: ManyRun)
    requires
        run.inv(),
        !(run.next == run.results@.len() && run.running == 0),
    ensures
        run.running > 0 || (run.next < run.results@.len() && run.running < run.slots),
{
}

/// After a command failed on a shared session: the session is dropped, and the batch, if there is
/// one, does not open it again.
pub fn session_failed(pool: &mut SessionPool, session: &PooledSession, limits: &OperationLimits)
    requires
        old(pool)@.well_formed(),
    ensures
        final(pool)@.well_formed(),
        final(pool)@.blocked == marked_too(old(pool)@.blocked, limits.batch_scope, session@.key),
        final(pool)@.batch == old(pool)@.batch,
        final(pool)@.pending == old(pool)@.pending,
        final(pool)@.entries == removed(old(pool)@, session@.key, session@.handle),
{
    pool.remove(session);
    pool.block_reconnect(limits.batch_scope, &session.key);
}

/// The entries without the session of this key, if it still has this handle.
pub open spec fn removed(
    pool: PoolModel,
    key: Seq<crate::pool::HopModel>,
    handle: u64,
) -> Seq<crate::pool::EntryModel> {
    let at = crate::pool::entry_index(pool.entries, key);
    if crate::pool::has_entry(pool.entries, key) && pool.entries[at].session.handle == handle {
        pool.entries.remove(at)
    } else {
        pool.entries
    }
}

/// After a connection could not be opened: the batch does not try the key again, and where the
/// parent could not open a channel, the parent is given up as well.
pub fn connection_failed(
    pool: &mut SessionPool,
    key: &SessionKey,
    parent: Option<&PooledSession>,
    error: &RemoteFailure,
    limits: &OperationLimits,
)
    requires
        old(pool)@.well_formed(),
    ensures
        final(pool)@.well_formed(),
        final(pool)@.batch == old(pool)@.batch,
        final(pool)@.pending == old(pool)@.pending,
        ({
            let blocked = marked_too(old(pool)@.blocked, limits.batch_scope, key@);
            match parent {
                Some(session) if error@.code == "JUMP_CHANNEL_FAILED"@ => final(pool)@.blocked
                    == marked_too(blocked, limits.batch_scope, session@.key)
                    && final(pool)@.entries == removed(
                    old(pool)@,
                    session@.key,
                    session@.handle,
                ),
                _ => final(pool)@.blocked == blocked && final(pool)@.entries
                    == old(pool)@.entries,
            }
        }),
{
    pool.block_reconnect(limits.batch_scope, key);
    if let Some(session) = parent {
        if same_text(error.code, "JUMP_CHANNEL_FAILED") {
            pool.remove(session);
            pool.block_reconnect(limits.batch_scope, &session.key);
        }
    }
}

/// The host asks a person for something while it authenticates: an agent may, and so does a
/// security key, known by the name of its file or from the file itself.
pub open spec fn is_interactive(host: ProfileModel, security_keys: Seq<Id>) -> bool {
    match host.ssh_auth {
        SshAuth::SshAgent => true,
        SshAuth::PrivateKey => name_of_security_key(trimmed(host.private_key_path))
            || security_keys.contains(host.id),
        SshAuth::Password => false,
    }
}

/// Some host on the way asks a person for something. `security_keys` are the hosts whose key file
/// was found to hold a security key.
pub fn profile_may_require_interaction(
    profile: &HostProfile,
    hosts: &[HostProfile],
    security_keys: &Vec<Id>,
) -> (r: bool)
    ensures
        r == (profile@.protocol == Protocol::Ssh && exists|chain: Seq<ProfileModel>, i: int|
            #![trigger is_chain(profile@, models(hosts@), chain), chain[i]]
            is_chain(profile@, models(hosts@), chain) && 0 <= i < chain.len() && is_interactive(
                chain[i],
                security_keys@,
            )),
{
    let chain = match resolve_ssh_chain(profile, hosts) {
        Ok(chain) => chain,
        Err(_) => {
            assert forall|c: Seq<ProfileModel>| is_chain(profile@, models(hosts@), c) implies false by {
                assert(c[c.len() - 1].protocol == Protocol::Ssh);
            }
            return false;
        },
    };
    let ghost found = models_of(chain@);
    let mut i: usize = 0;
    while i < chain.len()
        invariant
            i <= chain@.len(),
            found == models_of(chain@),
            is_chain(profile@, models(hosts@), found),
            forall|j: int| 0 <= j < i ==> !is_interactive(#[trigger] found[j], security_keys@),
        decreases chain@.len() - i,
    {
        let asks = match chain[i].ssh_auth {
            SshAuth::SshAgent => true,
            SshAuth::PrivateKey => looks_like_fido_handle(trim(chain[i].private_key_path.as_str()))
                || crate::pool::holds_id(security_keys, chain[i].id),
            SshAuth::Password => false,
        };
        if asks {
            assert(is_interactive(found[i as int], security_keys@));
            assert(found[found.len() - 1].protocol == Protocol::Ssh);
            return true;
        }
        i = i + 1;
    }
    proof {
        assert forall|c: Seq<ProfileModel>, k: int|
            #![trigger is_chain(profile@, models(hosts@), c), c[k]]
            is_chain(profile@, models(hosts@), c) && 0 <= k < c.len() implies !is_interactive(
            c[k],
            security_keys@,
        ) by {
            crate::model::chain_is_unique(profile@, models(hosts@), c, found);
        }
    }
    false
}

/// A key with this fingerprint is in the list.
pub open spec fn key_listed(keys: Seq<AgentKeyModel>, fingerprint: Seq<char>) -> bool {
    exists|i: int| 0 <= i < keys.len() && (#[trigger] keys[i]).fingerprint == fingerprint
}

/// Of keys with the same fingerprint the first, up to the limit.
pub open spec fn listed(keys: Seq<AgentKeyModel>) -> Seq<AgentKeyModel>
    decreases keys.len(),
{
    if keys.len() == 0 {
        Seq::empty()
    } else {
        let before = listed(keys.drop_last());
        if key_listed(before, keys.last().fingerprint) || before.len() >= MAX_AGENT_IDENTITIES {
            before
        } else {
            before.push(keys.last())
        }
    }
}

/// The models of a list of keys.
pub open spec fn key_models(keys: Seq<AgentKeyInfo>) -> Seq<AgentKeyModel> {
    Seq::new(keys.len(), |i: int| keys[i]@)
}

/// The identities to show of all that the agents offer: each key once, and no more than the limit.
pub fn agent_identities(offered: &Vec<AgentKeyInfo>) -> (r: Vec<AgentKeyInfo>)
    ensures
        key_models(r@) == listed(key_models(offered@)),
        r@.len() <= MAX_AGENT_IDENTITIES,
{
    let mut out: Vec<AgentKeyInfo> = Vec::new();
    let mut i: usize = 0;
    let ghost all = key_models(offered@);
    assert(key_models(out@) =~= listed(all.take(0)));
    while i < offered.len()
        invariant
            i <= offered@.len(),
            all == key_models(offered@),
            out@.len() <= MAX_AGENT_IDENTITIES,
            key_models(out@) == listed(all.take(i as int)),
        decreases offered@.len() - i,
    {
        assert(all.take(i + 1).drop_last() =~= all.take(i as int));
        let mut known = false;
        let mut j: usize = 0;
        let ghost shown = key_models(out@);
        while j < out.len()
            invariant
                i < offered@.len(),
                j <= out@.len(),
                shown == key_models(out@),
                known == exists|k: int|
                    0 <= k < j && (#[trigger] shown[k]).fingerprint
                        == offered@[i as int].fingerprint@,
            decreases out@.len() - j,
        {
            let same = same_text(out[j].fingerprint.as_str(), offered[i].fingerprint.as_str());
            assert(shown[j as int].fingerprint == out@[j as int].fingerprint@);
            known = known || same;
            j = j + 1;
        }
        assert(known == key_listed(shown, all[i as int].fingerprint));
        if !known && out.len() < MAX_AGENT_IDENTITIES {
            out.push(offered[i].clone());
            assert(key_models(out@) =~= shown.push(all[i as int]));
        }
        i = i + 1;
    }
    assert(all.take(offered@.len() as int) =~= all);
    out
}

/// The exit code of a command decides the status that is reported of it: `ok` for zero and for
/// nothing else, `remote_error` for every other one. What the command printed, on either stream,
/// is reported as it is, under the alias of the host.
pub proof fn the_exit_code_decides_the_status(
    profile: HostProfile,
    command: CommandResult,
    verified_host_keys: Seq<VerifiedHostKey>,
    auth_keys: Seq<Option<String>>,
    result: RemoteResult,
)
    requires
        result@ == reported(profile@, command, verified_host_keys, auth_keys),
    ensures
        result.status@ == "ok"@ <==> command.exit_code == 0,
        result.status@ == "remote_error"@ <==> command.exit_code != 0,
        result.exit_code == command.exit_code,
        result.stdout@ == command.stdout@,
        result.stderr@ == command.stderr@,
        result.output_truncated == command.output_truncated,
        result.alias@ == profile.alias@,
{
    reveal_strlit("ok");
    reveal_strlit("remote_error");
    assert("ok"@.len() != "remote_error"@.len());
    assert(result@.status == result.status@ && result@.alias == result.alias@);
    assert(result@.stdout == result.stdout@ && result@.stderr == result.stderr@);
}

/// The host key that a result tells of is that of the last hop, which is the host itself.
pub proof fn the_last_hop_is_reported(
    profile: ProfileModel,
    command: CommandResult,
    verified_host_keys: Seq<VerifiedHostKey>,
    auth_keys: Seq<Option<String>>,
    hop: VerifiedHostKey,
    auth_key: Option<String>,
)
    ensures
        ({
            let result = reported(
                profile,
                command,
                verified_host_keys.push(hop),
                auth_keys.push(auth_key),
            );
            &&& result.host_key_algorithm == Some(hop.algorithm@)
            &&& result.auth_key_fingerprint is Some == auth_key is Some
            &&& auth_key is Some ==> result.auth_key_fingerprint == Some(auth_key->0@)
            &&& result.verified_host_keys.len() == verified_host_keys.len() + 1
            &&& result.verified_host_keys.last().fingerprint == hop.fingerprint@
            &&& result.verified_host_keys.last().host_id == hop.host_id
        }),
{
    let keys = verified_host_keys.push(hop);
    assert(keys.last() == hop);
    assert(verified_models(keys).last() == hop@);
    assert(auth_keys.push(auth_key).last() == auth_key);
}

/// Of several commands each is reported in its own place: with its exit code and what it printed
/// where it ran, `ok` for zero only, and with its failure where it did not.
pub proof fn every_command_is_reported_as_it_ended(
    index: usize,
    outcome: Result<CommandResult, RemoteFailure>,
    reported: RemoteCommandResult,
)
    requires
        reported@ == ended(index, outcome),
    ensures
        reported.index == index,
        reported.status@ == "ok"@ <==> outcome is Ok && outcome->Ok_0.exit_code == 0,
        reported.status@ == "remote_error"@ <==> outcome is Ok && outcome->Ok_0.exit_code != 0,
        reported.status@ == "error"@ <==> outcome is Err,
        outcome is Ok ==> reported.exit_code == Some(outcome->Ok_0.exit_code)
            && reported.error_code is None && reported.stdout@ == outcome->Ok_0.stdout@
            && reported.stderr@ == outcome->Ok_0.stderr@ && reported.output_truncated
            == outcome->Ok_0.output_truncated,
        outcome is Err ==> reported.exit_code is None && reported.error_code is Some
            && reported.error_code->0@ == outcome->Err_0.code@ && reported.error_message is Some
            && reported.error_message->0@ == outcome->Err_0.message@,
{
    reveal_strlit("ok");
    reveal_strlit("remote_error");
    reveal_strlit("error");
    assert("ok"@.len() == 2 && "error"@.len() == 5 && "remote_error"@.len() == 12);
    assert(reported@.status == reported.status@ && reported@.stdout == reported.stdout@);
    assert(reported@.stderr == reported.stderr@);
    if outcome is Err {
        assert(reported@.error_code == Some(outcome->Err_0@.code));
        assert(reported@.error_message == Some(outcome->Err_0@.message));
    }
}

/// The whole row is `ok` exactly where every command ran and ended with zero; else it tells
/// whether some command could not be run at all.
pub proof fn a_row_of_commands_is_ok_when_all_are(
    outcomes: Seq<Result<CommandResult, RemoteFailure>>,
    results: Seq<CommandModel>,
)
    requires
        results.len() == outcomes.len() <= usize::MAX,
        forall|i: int|
            0 <= i < results.len() ==> #[trigger] results[i] == ended(i as usize, outcomes[i]),
    ensures
        many_status(results) == "ok"@ <==> forall|i: int|
            0 <= i < outcomes.len() ==> (#[trigger] outcomes[i]) is Ok
                && outcomes[i]->Ok_0.exit_code == 0,
        many_status(results) == "completed_with_errors"@ <==> exists|i: int|
            0 <= i < outcomes.len() && (#[trigger] outcomes[i]) is Err,
        many_status(results) == "ok"@ || many_status(results) == "completed_with_errors"@
            || many_status(results) == "completed_with_remote_errors"@,
{
    reveal_strlit("ok");
    reveal_strlit("remote_error");
    reveal_strlit("error");
    reveal_strlit("completed_with_errors");
    reveal_strlit("completed_with_remote_errors");
    assert("ok"@.len() == 2 && "error"@.len() == 5 && "remote_error"@.len() == 12);
    assert("completed_with_errors"@.len() == 21 && "completed_with_remote_errors"@.len() == 28);
    assert forall|i: int| 0 <= i < results.len() implies ((#[trigger] results[i]).status == "ok"@
        <==> outcomes[i] is Ok && outcomes[i]->Ok_0.exit_code == 0) && (results[i].status
        == "error"@ <==> outcomes[i] is Err) by {
        assert(results[i] == ended(i as usize, outcomes[i]));
    }
    if many_status(results) == "ok"@ {
        assert forall|i: int| 0 <= i < outcomes.len() implies (#[trigger] outcomes[i]) is Ok
            && outcomes[i]->Ok_0.exit_code == 0 by {
            assert(results[i].status == "ok"@);
        }
    }
    if exists|i: int| 0 <= i < outcomes.len() && (#[trigger] outcomes[i]) is Err {
        let i = choose|i: int| 0 <= i < outcomes.len() && (#[trigger] outcomes[i]) is Err;
        assert(results[i].status == "error"@);
    }
    if many_status(results) == "completed_with_errors"@ {
        let i = choose|i: int|
            0 <= i < results.len() && (#[trigger] results[i]).status == "error"@;
        assert(outcomes[i] is Err);
    }
}

/// A person is waited for where an agent or a security key is used, and not for a password.
pub proof fn hardware_waits_for_a_person(host: ProfileModel, security_keys: Seq<Id>)
    ensures
        host.ssh_auth == SshAuth::Password ==> !is_interactive(host, security_keys),
        host.ssh_auth == SshAuth::SshAgent ==> is_interactive(host, security_keys),
        host.ssh_auth == SshAuth::PrivateKey && security_keys.contains(host.id) ==> is_interactive(
            host,
            security_keys,
        ),
{
}

/// As many commands run at a time as were asked for, but one at least, and not more than there are.
pub proof fn commands_run_side_by_side(max_concurrency: usize, commands: nat)
    ensures
        1 <= command_slots(max_concurrency, commands),
        commands >= 1 ==> command_slots(max_concurrency, commands) <= commands,
        1 <= max_concurrency <= commands ==> command_slots(max_concurrency, commands)
            == max_concurrency,
        commands >= 1 && max_concurrency > commands ==> command_slots(max_concurrency, commands)
            == commands,
{
}

/// A command that never started has printed nothing, has no exit code and counts as cancelled.
pub proof fn commands_that_never_started_say_so(index: usize)
    ensures
        not_started(index).index == index,
        not_started(index).status == "cancelled"@,
        not_started(index).exit_code is None,
        not_started(index).stdout.len() == 0,
        not_started(index).stderr.len() == 0,
        not_started(index).error_code == Some("COMMAND_CANCELLED"@),
{
}

} // verus!

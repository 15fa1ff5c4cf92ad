//! The rules of the tool server: which tools there are, how a call is bounded, and what it waits
//! for.
use vstd::prelude::*;

use crate::failure::{failure, FailureModel, RemoteFailure};
use crate::id::Id;
use crate::json::{member, object, optional, quoted, Lines};
use crate::model::{
    has_chain, is_chain, chain_is_unique, models, models_of, resolve_ssh_chain, AdvancedModel,
    AuthPersistence, HostProfile, ProfileModel, Protocol,
};
use crate::remote::OperationLimits;
use crate::storage::HostStore;
use crate::temporary_secrets::{
    bindings, EnvBinding, Execution, ExecutionModel, Request, DEFAULT_EXECUTION_MS,
};
use crate::text::{decimal, decimal_string, is_blank, optional_text, texts, trimmed};
use crate::tool::{
    capped, concurrency, find_host, limits, lookup_fault, owner_of, workers, Timeouts,
    MAX_BATCH_CONCURRENCY, MAX_BATCH_HOSTS, MAX_BATCH_OUTPUT_BYTES, MAX_EXEC_MANY_COMMANDS,
    MAX_TOOL_TIMEOUT_MS, SCHEMA_VERSION,
};

verus! {

/// Milliseconds for connecting when a call names none. A hardware key may have to be touched.
pub const DEFAULT_CONNECT_TIMEOUT: u64 = 120_000;

/// Milliseconds for a command when a call names none.
pub const DEFAULT_COMMAND_TIMEOUT: u64 = 600_000;

/// Calls that run at the same time.
pub const MAX_CONCURRENT_CALLS: usize = 4;

/// The editor waits for a person; after an hour nobody will close it any more.
pub const EDITOR_TIMEOUT_MS: u64 = 3_600_000;

/// A tool of the server.
#[derive(Debug, Clone, Copy, PartialEq, Eq, Structural)]
pub enum Tool {
    AgentIdentities,
    BatchExec,
    BatchProbe,
    Disconnect,
    Exec,
    ExecMany,
    ExecStdin,
    FidoIdentities,
    ListHosts,
    OpenHostEditor,
    Probe,
    TemporarySecretsClear,
    TemporarySecretsOpen,
    TemporarySecretsRun,
    TemporarySecretsStatus,
}

/// What a tool is declared to do.
#[derive(Debug, Clone, Copy, PartialEq, Eq, Structural)]
pub struct Annotations {
    pub read_only_hint: Option<bool>,
    pub destructive_hint: Option<bool>,
    pub idempotent_hint: Option<bool>,
    pub open_world_hint: Option<bool>,
}

impl Tool {
    pub open spec fn label(self) -> Seq<char> {
        match self {
            Tool::AgentIdentities => "agent_identities"@,
            Tool::BatchExec => "batch_exec"@,
            Tool::BatchProbe => "batch_probe"@,
            Tool::Disconnect => "disconnect"@,
            Tool::Exec => "exec"@,
            Tool::ExecMany => "exec_many"@,
            Tool::ExecStdin => "exec_stdin"@,
            Tool::FidoIdentities => "fido_identities"@,
            Tool::ListHosts => "list_hosts"@,
            Tool::OpenHostEditor => "open_host_editor"@,
            Tool::Probe => "probe"@,
            Tool::TemporarySecretsClear => "temporary_secrets_clear"@,
            Tool::TemporarySecretsOpen => "temporary_secrets_open"@,
            Tool::TemporarySecretsRun => "temporary_secrets_run"@,
            Tool::TemporarySecretsStatus => "temporary_secrets_status"@,
        }
    }

    pub fn name(self) -> (r: &'static str)
        ensures
            r@ == self.label(),
    {
        match self {
            Self::AgentIdentities => "agent_identities",
            Self::BatchExec => "batch_exec",
            Self::BatchProbe => "batch_probe",
            Self::Disconnect => "disconnect",
            Self::Exec => "exec",
            Self::ExecMany => "exec_many",
            Self::ExecStdin => "exec_stdin",
            Self::FidoIdentities => "fido_identities",
            Self::ListHosts => "list_hosts",
            Self::OpenHostEditor => "open_host_editor",
            Self::Probe => "probe",
            Self::TemporarySecretsClear => "temporary_secrets_clear",
            Self::TemporarySecretsOpen => "temporary_secrets_open",
            Self::TemporarySecretsRun => "temporary_secrets_run",
            Self::TemporarySecretsStatus => "temporary_secrets_status",
        }
    }

    /// The tool runs code of the caller's choice.
    pub open spec fn executes(self) -> bool {
        self == Tool::Exec || self == Tool::ExecStdin || self == Tool::ExecMany || self
            == Tool::BatchExec || self == Tool::TemporarySecretsRun
    }

    /// The tool reaches beyond this machine's own data.
    pub open spec fn connects(self) -> bool {
        self.executes() || self == Tool::Probe || self == Tool::BatchProbe
    }

    /// The tool changes nothing that anyone relies on.
    pub open spec fn reads(self) -> bool {
        self == Tool::AgentIdentities || self == Tool::FidoIdentities || self == Tool::ListHosts
            || self == Tool::Probe || self == Tool::BatchProbe || self
            == Tool::TemporarySecretsStatus
    }

    pub open spec fn declared(self) -> Annotations {
        Annotations {
            read_only_hint: Some(self.reads()),
            destructive_hint: if self.reads() {
                None
            } else {
                Some(self.executes() || self == Tool::TemporarySecretsClear)
            },
            idempotent_hint: if self == Tool::Disconnect || self == Tool::TemporarySecretsClear {
                Some(true)
            } else {
                None
            },
            open_world_hint: Some(self.connects()),
        }
    }

    /// The hints by which a client tells harmless tools from others.
    pub fn annotations(self) -> (r: Annotations)
        ensures
            r == self.declared(),
    {
        let executes = self == Tool::Exec || self == Tool::ExecStdin || self == Tool::ExecMany
            || self == Tool::BatchExec || self == Tool::TemporarySecretsRun;
        let connects = executes || self == Tool::Probe || self == Tool::BatchProbe;
        let reads = self == Tool::AgentIdentities || self == Tool::FidoIdentities || self
            == Tool::ListHosts || self == Tool::Probe || self == Tool::BatchProbe || self
            == Tool::TemporarySecretsStatus;
        Annotations {
            read_only_hint: Some(reads),
            destructive_hint: if reads {
                None
            } else {
                Some(executes || self == Tool::TemporarySecretsClear)
            },
            idempotent_hint: if self == Tool::Disconnect || self == Tool::TemporarySecretsClear {
                Some(true)
            } else {
                None
            },
            open_world_hint: Some(connects),
        }
    }
}

/// Every tool of the server.
pub open spec fn all_tools() -> Seq<Tool> {
    seq![
        Tool::AgentIdentities,
        Tool::BatchExec,
        Tool::BatchProbe,
        Tool::Disconnect,
        Tool::Exec,
        Tool::ExecMany,
        Tool::ExecStdin,
        Tool::FidoIdentities,
        Tool::ListHosts,
        Tool::OpenHostEditor,
        Tool::Probe,
        Tool::TemporarySecretsClear,
        Tool::TemporarySecretsOpen,
        Tool::TemporarySecretsRun,
        Tool::TemporarySecretsStatus,
    ]
}

pub fn tools() -> (r: Vec<Tool>)
    ensures
        r@ == all_tools(),
{
    let mut list: Vec<Tool> = Vec::new();
    list.push(Tool::AgentIdentities);
    list.push(Tool::BatchExec);
    list.push(Tool::BatchProbe);
    list.push(Tool::Disconnect);
    list.push(Tool::Exec);
    list.push(Tool::ExecMany);
    list.push(Tool::ExecStdin);
    list.push(Tool::FidoIdentities);
    list.push(Tool::ListHosts);
    list.push(Tool::OpenHostEditor);
    list.push(Tool::Probe);
    list.push(Tool::TemporarySecretsClear);
    list.push(Tool::TemporarySecretsOpen);
    list.push(Tool::TemporarySecretsRun);
    list.push(Tool::TemporarySecretsStatus);
    assert(list@ =~= all_tools());
    list
}

/// Every tool is declared, and a tool that runs code says that it may destroy something and never
/// that it only reads.
pub proof fn tools_declare_their_risk(tool: Tool)
    ensures
        all_tools().contains(tool),
        tool.declared().read_only_hint is Some,
        tool.declared().open_world_hint is Some,
        tool.executes() ==> tool.declared().destructive_hint == Some(true)
            && tool.declared().read_only_hint == Some(false) && tool.declared().open_world_hint
            == Some(true),
        tool.declared().read_only_hint == Some(true) ==> !tool.executes(),
{
    let tools = all_tools();
    match tool {
        Tool::AgentIdentities => assert(tools[0] == tool),
        Tool::BatchExec => assert(tools[1] == tool),
        Tool::BatchProbe => assert(tools[2] == tool),
        Tool::Disconnect => assert(tools[3] == tool),
        Tool::Exec => assert(tools[4] == tool),
        Tool::ExecMany => assert(tools[5] == tool),
        Tool::ExecStdin => assert(tools[6] == tool),
        Tool::FidoIdentities => assert(tools[7] == tool),
        Tool::ListHosts => assert(tools[8] == tool),
        Tool::OpenHostEditor => assert(tools[9] == tool),
        Tool::Probe => assert(tools[10] == tool),
        Tool::TemporarySecretsClear => assert(tools[11] == tool),
        Tool::TemporarySecretsOpen => assert(tools[12] == tool),
        Tool::TemporarySecretsRun => assert(tools[13] == tool),
        Tool::TemporarySecretsStatus => assert(tools[14] == tool),
    }
}

pub fn connect_timeout_or_default(connect_timeout_ms: Option<u64>) -> (r: u64)
    ensures
        r == match connect_timeout_ms {
            Some(value) => value,
            None => DEFAULT_CONNECT_TIMEOUT,
        },
{
    match connect_timeout_ms {
        Some(value) => value,
        None => DEFAULT_CONNECT_TIMEOUT,
    }
}

pub fn command_timeout_or_default(command_timeout_ms: Option<u64>) -> (r: u64)
    ensures
        r == match command_timeout_ms {
            Some(value) => value,
            None => DEFAULT_COMMAND_TIMEOUT,
        },
{
    match command_timeout_ms {
        Some(value) => value,
        None => DEFAULT_COMMAND_TIMEOUT,
    }
}

/// What the call says, else what the host says in seconds, else the general value.
pub open spec fn first_of(asked: Option<u64>, host_s: Option<u32>, general: u64) -> u64 {
    match (asked, host_s) {
        (Some(value), _) => value,
        (None, Some(seconds)) => (seconds * 1000) as u64,
        (None, None) => general,
    }
}

/// The limits of a call on one host.
pub open spec fn limits_for(advanced: AdvancedModel, timeouts: Timeouts) -> OperationLimits {
    OperationLimits {
        total_timeout: None,
        connect_timeout: Some(
            capped(
                first_of(
                    timeouts.connect_timeout_ms,
                    advanced.connect_timeout_s,
                    DEFAULT_CONNECT_TIMEOUT,
                ),
            ),
        ),
        command_timeout: Some(
            capped(
                first_of(
                    timeouts.command_timeout_ms,
                    advanced.command_timeout_s,
                    DEFAULT_COMMAND_TIMEOUT,
                ),
            ),
        ),
        output_bytes: None,
        batch_scope: None,
        retain_sessions: true,
    }
}

fn asked_or_host(asked: Option<u64>, host_s: Option<u32>) -> (r: Option<u64>)
    ensures
        r == match (asked, host_s) {
            (Some(value), _) => Some(value),
            (None, Some(seconds)) => Some((seconds * 1000) as u64),
            (None, None) => None,
        },
{
    match asked {
        Some(value) => Some(value),
        None => match host_s {
            Some(seconds) => Some(seconds as u64 * 1000),
            None => None,
        },
    }
}

/// A timeout of the call wins over the host's, and the host's over the general one. Sessions of
/// hosts that keep them stay open.
pub fn host_limits(host: &HostProfile, timeouts: Timeouts) -> (r: OperationLimits)
    ensures
        r == limits_for(host@.advanced, timeouts),
{
    let connect: u64 = connect_timeout_or_default(
        asked_or_host(timeouts.connect_timeout_ms, host.advanced.connect_timeout_s),
    );
    let command: u64 = command_timeout_or_default(
        asked_or_host(timeouts.command_timeout_ms, host.advanced.command_timeout_s),
    );
    let mut limits = limits(
        Timeouts { connect_timeout_ms: Some(connect), command_timeout_ms: Some(command) },
        None,
    );
    limits.retain_sessions = true;
    limits
}

/// The timeouts of the hosts of a batch.
pub fn batch_timeouts(timeouts: Timeouts) -> (r: Timeouts)
    ensures
        r.connect_timeout_ms == Some(
            first_of(timeouts.connect_timeout_ms, None, DEFAULT_CONNECT_TIMEOUT),
        ),
        r.command_timeout_ms == Some(
            first_of(timeouts.command_timeout_ms, None, DEFAULT_COMMAND_TIMEOUT),
        ),
{
    Timeouts {
        connect_timeout_ms: Some(connect_timeout_or_default(timeouts.connect_timeout_ms)),
        command_timeout_ms: Some(command_timeout_or_default(timeouts.command_timeout_ms)),
    }
}

/// Channels that a host allows at a time.
pub open spec fn channels_of(advanced: AdvancedModel) -> int {
    match advanced.max_channels {
        Some(n) => n as int,
        None => crate::model::DEFAULT_CHANNELS_PER_HOST as int,
    }
}

/// How many of several commands run at a time on a host.
pub fn many_concurrency(host: &HostProfile, max_concurrency: Option<usize>) -> (r: usize)
    ensures
        r == if workers(max_concurrency) > channels_of(host@.advanced) {
            channels_of(host@.advanced)
        } else {
            workers(max_concurrency)
        },
{
    let wanted: usize = concurrency(max_concurrency);
    let allowed: usize = host.advanced.max_channels();
    if wanted > allowed {
        allowed
    } else {
        wanted
    }
}

/// What a call on one host waits for: the hosts that it must have for itself, in the order in
/// which they are taken, and its share of the target's channels.
#[derive(Debug, PartialEq, Eq)]
pub struct GatePlan {
    pub hosts: Vec<Id>,
    pub channels: usize,
}

/// The hosts on the way to the target; the target alone when there is no way.
pub open spec fn hosts_on_the_way(target: ProfileModel, hosts: Seq<ProfileModel>) -> Seq<
    ProfileModel,
> {
    if target.protocol == Protocol::Ssh && has_chain(target, hosts) {
        choose|chain: Seq<ProfileModel>| is_chain(target, hosts, chain)
    } else {
        seq![target]
    }
}

/// A host on the way has this identity and authenticates anew for every call.
pub open spec fn is_exclusive(target: ProfileModel, hosts: Seq<ProfileModel>, id: Id) -> bool {
    exists|i: int|
        0 <= i < hosts_on_the_way(target, hosts).len() && (#[trigger] hosts_on_the_way(
            target,
            hosts,
        )[i]).id == id && hosts_on_the_way(target, hosts)[i].persistence()
            == AuthPersistence::PerCall
}

/// The identities stand in strictly ascending order.
pub open spec fn ascending(ids: Seq<Id>) -> bool {
    forall|i: int, j: int|
        0 <= i < j < ids.len() ==> (#[trigger] ids[i]).value < (#[trigger] ids[j]).value
}

/// Puts an identity in its place, unless it is there already.
fn insert_ascending(ids: &mut Vec<Id>, id: Id)
    requires
        ascending(old(ids)@),
    ensures
        ascending(final(ids)@),
        forall|x: Id| final(ids)@.contains(x) <==> old(ids)@.contains(x) || x == id,
{
    let ghost before = ids@;
    let mut i: usize = 0;
    while i < ids.len() && ids[i].value < id.value
        invariant
            i <= ids@.len(),
            ids@ == before,
            ascending(before),
            forall|j: int| 0 <= j < i ==> (#[trigger] before[j]).value < id.value,
        decreases ids@.len() - i,
    {
        i = i + 1;
    }
    if i < ids.len() && ids[i].value == id.value {
        proof {
            assert(before[i as int] == id);
            assert forall|x: Id| ids@.contains(x) <==> before.contains(x) || x == id by {}
        }
        return;
    }
    ids.insert(i, id);
    proof {
        let after = ids@;
        assert(after == before.insert(i as int, id));
        assert forall|a: int, b: int| 0 <= a < b < after.len() implies (#[trigger] after[a]).value
            < (#[trigger] after[b]).value by {
            if a < i && b > i {
                assert(before[a].value < id.value);
                assert(after[b] == before[b - 1]);
            } else if a == i {
                assert(after[b] == before[b - 1]);
                if b - 1 > i {
                    assert(before[i as int].value < before[b - 1].value);
                }
            } else if a > i {
                assert(after[a] == before[a - 1] && after[b] == before[b - 1]);
            }
        }
        assert forall|x: Id| after.contains(x) <==> before.contains(x) || x == id by {
            if after.contains(x) {
                let k = choose|k: int| 0 <= k < after.len() && after[k] == x;
                if k < i {
                    assert(before[k] == x);
                } else if k > i {
                    assert(before[k - 1] == x);
                }
            }
            if before.contains(x) {
                let k = choose|k: int| 0 <= k < before.len() && before[k] == x;
                if k < i {
                    assert(after[k] == x);
                } else {
                    assert(after[k + 1] == x);
                }
            }
            assert(after[i as int] == id);
        }
    }
}

/// What a call on one host has to wait for. Two calls on a host that authenticates for every call
/// run one after the other. Hosts are taken in ascending order by every call, so that no two calls
/// wait for each other.
pub fn single_host_plan(target: &HostProfile, hosts: &[HostProfile], channels: usize) -> (r: GatePlan)
    ensures
        ascending(r.hosts@),
        forall|id: Id| r.hosts@.contains(id) <==> is_exclusive(target@, models(hosts@), id),
        r.channels == if channels > channels_of(target@.advanced) {
            if channels_of(target@.advanced) < 1 {
                1
            } else {
                channels_of(target@.advanced)
            }
        } else if channels < 1 {
            1
        } else {
            channels as int
        },
{
    let ghost known = models(hosts@);
    let ghost way = hosts_on_the_way(target@, known);
    let mut ids: Vec<Id> = Vec::new();
    match resolve_ssh_chain(target, hosts) {
        Ok(chain) => {
            let ghost found = models_of(chain@);
            proof {
                chain_is_unique(
                    target@,
                    known,
                    found,
                    choose|chain: Seq<ProfileModel>| is_chain(target@, known, chain),
                );
                assert(target@.protocol == Protocol::Ssh) by {
                    assert(found[found.len() - 1] == target@);
                }
                assert(way == found);
            }
            let mut i: usize = 0;
            while i < chain.len()
                invariant
                    i <= chain@.len(),
                    way == models_of(chain@),
                    ascending(ids@),
                    forall|id: Id| ids@.contains(id) <==> exclusive_before(way, i as int, id),
                decreases chain@.len() - i,
            {
                if chain[i].effective_auth_persistence() == AuthPersistence::PerCall {
                    let ghost before = ids@;
                    insert_ascending(&mut ids, chain[i].id);
                }
                assert(way[i as int] == chain@[i as int]@);
                assert forall|id: Id| ids@.contains(id) <==> exclusive_before(way, i + 1, id) by {
                    lemma_exclusive_step(way, i as int, id);
                }
                i = i + 1;
            }
        },
        Err(_) => {
            assert(way =~= seq![target@]);
            if target.effective_auth_persistence() == AuthPersistence::PerCall {
                ids.push(target.id);
                assert(ids@[0] == target@.id);
            }
            assert forall|id: Id| ids@.contains(id) <==> exclusive_before(way, 1, id) by {
                lemma_exclusive_step(way, 0, id);
            }
        },
    }
    proof {
        assert forall|id: Id| ids@.contains(id) <==> is_exclusive(target@, known, id) by {
            assert(exclusive_before(way, way.len() as int, id) == is_exclusive(target@, known, id));
        }
    }
    let allowed: usize = target.advanced.max_channels();
    let share: usize = if channels > allowed {
        allowed
    } else {
        channels
    };
    GatePlan {
        hosts: ids,
        channels: if share < 1 {
            1
        } else {
            share
        },
    }
}

/// One of the first hosts of a way has the identity and authenticates anew for every call.
pub open spec fn exclusive_before(way: Seq<ProfileModel>, end: int, id: Id) -> bool {
    exists|i: int|
        0 <= i < end && i < way.len() && (#[trigger] way[i]).id == id && way[i].persistence()
            == AuthPersistence::PerCall
}

proof fn lemma_exclusive_step(way: Seq<ProfileModel>, i: int, id: Id)
    requires
        0 <= i < way.len(),
    ensures
        exclusive_before(way, i + 1, id) <==> exclusive_before(way, i, id) || (way[i].id == id
            && way[i].persistence() == AuthPersistence::PerCall),
{
    if exclusive_before(way, i, id) {
        let k = choose|k: int|
            0 <= k < i && k < way.len() && (#[trigger] way[k]).id == id && way[k].persistence()
                == AuthPersistence::PerCall;
        assert(way[k].id == id);
    }
}

/// A call that was cancelled.
pub open spec fn cancelled_failure() -> FailureModel {
    failure(
        "CANCELLED"@,
        "The call was cancelled before it finished; a remote command that already started may still be running."@,
    )
}

pub fn cancelled() -> (r: RemoteFailure)
    ensures
        r@ == cancelled_failure(),
{
    RemoteFailure::new(
        "CANCELLED",
        "The call was cancelled before it finished; a remote command that already started may still be running.",
    )
}

/// The host whose sessions are to be dropped; every host when none is named.
pub fn disconnect_target(store: &HostStore, alias: Option<&str>) -> (r: Result<
    Option<Id>,
    RemoteFailure,
>)
    ensures
        match alias {
            None => r == Ok::<Option<Id>, RemoteFailure>(None),
            Some(name) => match lookup_fault(store@.hosts, name@) {
                Some(fault) => r matches Err(error) && error@ == fault,
                None => r == Ok::<Option<Id>, RemoteFailure>(
                    Some(store@.hosts[owner_of(store@.hosts, name@)].id),
                ),
            },
        },
{
    match alias {
        None => Ok(None),
        Some(name) => match find_host(store, name) {
            Err(error) => Err(error),
            Ok(host) => Ok(Some(host.id)),
        },
    }
}

/// How many sessions were dropped, for a tool.
pub fn disconnect_json(disconnected: usize) -> (r: String)
    ensures
        r@ == object(
            0,
            seq![
                member(0, "schema_version"@, decimal(SCHEMA_VERSION as nat)),
                member(0, "status"@, quoted("ok"@)),
                member(0, "disconnected"@, decimal(disconnected as nat)),
            ],
        ),
{
    let mut lines = Lines::new(0);
    lines.put_number("schema_version", SCHEMA_VERSION as u64);
    lines.put_text("status", "ok");
    lines.put_number("disconnected", disconnected as u64);
    assert(lines@ =~= seq![
        member(0, "schema_version"@, decimal(SCHEMA_VERSION as nat)),
        member(0, "status"@, quoted("ok"@)),
        member(0, "disconnected"@, decimal(disconnected as nat)),
    ]);
    lines.into_object()
}

/// What clients are told of the server as a whole.
pub open spec fn instruction_text() -> Seq<char> {
    "codex-hosts gives Codex access to saved SSH/Telnet hosts without exposing credentials. Passwords, key passphrases, and FIDO PINs are entered only in the app's own windows and never appear in tool parameters or results. Results use tool-protocol schema_version "@
        + decimal(SCHEMA_VERSION as nat)
        + ": status is ok, remote_error (non-zero exit_code), or error with a code. Defaults when omitted: connect_timeout_ms "@
        + decimal(DEFAULT_CONNECT_TIMEOUT as nat) + " ms, command_timeout_ms "@ + decimal(
        DEFAULT_COMMAND_TIMEOUT as nat,
    ) + " ms; the maximum for any timeout is "@ + decimal(MAX_TOOL_TIMEOUT_MS as nat)
        + " ms. Limits: "@ + decimal(MAX_BATCH_HOSTS as nat) + " hosts per batch, "@ + decimal(
        MAX_EXEC_MANY_COMMANDS as nat,
    ) + " commands per exec_many, batch concurrency up to "@ + decimal(
        MAX_BATCH_CONCURRENCY as nat,
    ) + ", batch output up to "@ + decimal(MAX_BATCH_OUTPUT_BYTES as nat)
        + " bytes. Every call authenticates again unless the host's profile keeps the session; a hardware key may need a touch on each call. Never retry a command automatically."@
}

pub fn instructions() -> (r: String)
    ensures
        r@ == instruction_text(),
{
    let mut text =
        "codex-hosts gives Codex access to saved SSH/Telnet hosts without exposing credentials. Passwords, key passphrases, and FIDO PINs are entered only in the app's own windows and never appear in tool parameters or results. Results use tool-protocol schema_version ".to_owned();
    text.append(decimal_string(SCHEMA_VERSION as u64).as_str());
    text.append(
        ": status is ok, remote_error (non-zero exit_code), or error with a code. Defaults when omitted: connect_timeout_ms ",
    );
    text.append(decimal_string(DEFAULT_CONNECT_TIMEOUT).as_str());
    text.append(" ms, command_timeout_ms ");
    text.append(decimal_string(DEFAULT_COMMAND_TIMEOUT).as_str());
    text.append(" ms; the maximum for any timeout is ");
    text.append(decimal_string(MAX_TOOL_TIMEOUT_MS).as_str());
    text.append(" ms. Limits: ");
    text.append(decimal_string(MAX_BATCH_HOSTS as u64).as_str());
    text.append(" hosts per batch, ");
    text.append(decimal_string(MAX_EXEC_MANY_COMMANDS as u64).as_str());
    text.append(" commands per exec_many, batch concurrency up to ");
    text.append(decimal_string(MAX_BATCH_CONCURRENCY as u64).as_str());
    text.append(", batch output up to ");
    text.append(decimal_string(MAX_BATCH_OUTPUT_BYTES as u64).as_str());
    text.append(
        " bytes. Every call authenticates again unless the host's profile keeps the session; a hardware key may need a touch on each call. Never retry a command automatically.",
    );
    text
}

/// Who owns the file of the host store.
#[derive(Debug, PartialEq, Eq)]
pub enum OwnerCheck {
    Owned,
    Mismatch { owner: String, current: String },
    Unavailable(String),
}

/// Whether the server starts, and what it says on its error stream.
#[derive(Debug, PartialEq, Eq)]
pub struct Startup {
    pub starts: bool,
    pub said: Option<String>,
}

/// The server does not serve a store that belongs to another account. Where the owner cannot be
/// found out, it says so and starts.
pub fn startup(check: &OwnerCheck, repair_hint: &str) -> (r: Startup)
    ensures
        r.starts == !(check is Mismatch),
        match *check {
            OwnerCheck::Owned => r.said is None,
            OwnerCheck::Mismatch { owner, current } => optional_text(r.said) == Some(
                "codex-hosts --mcp: refusing to start: the host store is owned by "@ + owner@
                    + ", not by the current user "@ + current@ + ". Fix it with: "@ + repair_hint@,
            ),
            OwnerCheck::Unavailable(reason) => optional_text(r.said) == Some(
                "codex-hosts --mcp: could not verify the host store owner: "@ + reason@,
            ),
        },
{
    match check {
        OwnerCheck::Owned => Startup { starts: true, said: None },
        OwnerCheck::Mismatch { owner, current } => {
            let mut text =
                "codex-hosts --mcp: refusing to start: the host store is owned by ".to_owned();
            text.append(owner.as_str());
            text.append(", not by the current user ");
            text.append(current.as_str());
            text.append(". Fix it with: ");
            text.append(repair_hint);
            Startup { starts: false, said: Some(text) }
        },
        OwnerCheck::Unavailable(reason) => {
            let mut text =
                "codex-hosts --mcp: could not verify the host store owner: ".to_owned();
            text.append(reason.as_str());
            Startup { starts: true, said: Some(text) }
        },
    }
}

/// A request to run a program with secrets; it has a minute unless it names another time.
pub fn run_request(
    program: String,
    args: Vec<String>,
    cwd: String,
    env: Vec<EnvBinding>,
    timeout_ms: Option<u64>,
) -> (r: Request)
    ensures
        r matches Request::Execute(execution) && execution@ == (ExecutionModel {
            program: program@,
            args: texts(args@),
            cwd: cwd@,
            env: bindings(env@),
            timeout_ms: match timeout_ms {
                Some(value) => value,
                None => DEFAULT_EXECUTION_MS,
            },
        }),
{
    Request::Execute(
        Execution {
            program,
            args,
            cwd,
            env,
            timeout_ms: match timeout_ms {
                Some(value) => value,
                None => DEFAULT_EXECUTION_MS,
            },
        },
    )
}

/// What the host editor is opened with.
#[derive(Debug, Default)]
pub struct OpenHostEditorParams {
    pub alias: String,
    pub host: Option<String>,
    pub port: Option<u16>,
    pub user: Option<String>,
    pub protocol: Option<String>,
    pub auth: Option<String>,
    pub key_path: Option<String>,
    pub agent_key_fingerprint: Option<String>,
    pub jump_host: Option<String>,
    pub description: Option<String>,
    pub tags: Option<Vec<String>>,
    pub observed_fingerprint: Option<String>,
    pub observed_algorithm: Option<String>,
}

/// A flag and its value, when there is one.
pub open spec fn flag(name: Seq<char>, value: Option<Seq<char>>) -> Seq<Seq<char>> {
    match value {
        Some(text) => seq![name, text],
        None => Seq::empty(),
    }
}

/// A flag for every tag.
pub open spec fn tag_flags(tags: Seq<Seq<char>>) -> Seq<Seq<char>>
    decreases tags.len(),
{
    if tags.len() == 0 {
        Seq::empty()
    } else {
        tag_flags(tags.drop_last()) + seq!["--tag"@, tags.last()]
    }
}

pub open spec fn port_text(port: Option<u16>) -> Option<Seq<char>> {
    match port {
        Some(port) => Some(decimal(port as nat)),
        None => None,
    }
}

pub open spec fn optional_texts(list: Option<Vec<String>>) -> Seq<Seq<char>> {
    match list {
        Some(list) => texts(list@),
        None => Seq::empty(),
    }
}

/// The arguments that the editor is started with, behind those that every editor gets.
pub open spec fn editor_flags(params: OpenHostEditorParams) -> Seq<Seq<char>> {
    connection_flags(params) + trust_flags(params)
}

/// Who the host is and how it is logged into.
pub open spec fn connection_flags(params: OpenHostEditorParams) -> Seq<Seq<char>> {
    flag("--alias"@, Some(params.alias@)) + flag("--host"@, optional_text(params.host)) + flag(
        "--port"@,
        port_text(params.port),
    ) + flag("--user"@, optional_text(params.user)) + flag(
        "--protocol"@,
        optional_text(params.protocol),
    ) + flag("--auth"@, optional_text(params.auth)) + flag(
        "--key-path"@,
        optional_text(params.key_path),
    )
}

pub open spec fn trust_flags(params: OpenHostEditorParams) -> Seq<Seq<char>> {
    flag("--agent-key-fingerprint"@, optional_text(params.agent_key_fingerprint)) + flag(
        "--jump-host"@,
        optional_text(params.jump_host),
    ) + flag("--description"@, optional_text(params.description)) + flag(
        "--observed-fingerprint"@,
        optional_text(params.observed_fingerprint),
    ) + flag("--observed-algorithm"@, optional_text(params.observed_algorithm)) + tag_flags(
        optional_texts(params.tags),
    )
}

fn push_flag(args: &mut Vec<String>, name: &str, value: &Option<String>)
    ensures
        texts(final(args)@) == texts(old(args)@) + flag(name@, optional_text(*value)),
{
    if let Some(text) = value {
        args.push(name.to_owned());
        args.push(text.clone());
    }
    assert(texts(args@) =~= texts(old(args)@) + flag(name@, optional_text(*value)));
}

fn push_tags(args: &mut Vec<String>, tags: &Vec<String>)
    ensures
        texts(final(args)@) == texts(old(args)@) + tag_flags(texts(tags@)),
{
    let ghost names = texts(tags@);
    let mut i: usize = 0;
    assert(texts(args@) =~= texts(old(args)@) + tag_flags(names.take(0)));
    while i < tags.len()
        invariant
            i <= tags@.len(),
            names == texts(tags@),
            texts(args@) == texts(old(args)@) + tag_flags(names.take(i as int)),
        decreases tags@.len() - i,
    {
        let ghost before = texts(args@);
        assert(names.take(i + 1).drop_last() =~= names.take(i as int));
        args.push("--tag".to_owned());
        args.push(tags[i].clone());
        assert(texts(args@) =~= before + seq!["--tag"@, names[i as int]]);
        assert(texts(args@) =~= texts(old(args)@) + tag_flags(names.take(i + 1)));
        i = i + 1;
    }
    assert(names.take(i as int) =~= names);
}

fn push_connection(args: &mut Vec<String>, params: &OpenHostEditorParams)
    ensures
        texts(final(args)@) == texts(old(args)@) + connection_flags(*params),
{
    let alias = Some(params.alias.clone());
    let port = match params.port {
        Some(port) => Some(decimal_string(port as u64)),
        None => None,
    };
    push_flag(args, "--alias", &alias);
    push_flag(args, "--host", &params.host);
    push_flag(args, "--port", &port);
    push_flag(args, "--user", &params.user);
    push_flag(args, "--protocol", &params.protocol);
    push_flag(args, "--auth", &params.auth);
    push_flag(args, "--key-path", &params.key_path);
    assert(texts(args@) =~= texts(old(args)@) + connection_flags(*params));
}

fn push_trust(args: &mut Vec<String>, params: &OpenHostEditorParams)
    ensures
        texts(final(args)@) == texts(old(args)@) + trust_flags(*params),
{
    push_flag(args, "--agent-key-fingerprint", &params.agent_key_fingerprint);
    push_flag(args, "--jump-host", &params.jump_host);
    push_flag(args, "--description", &params.description);
    push_flag(args, "--observed-fingerprint", &params.observed_fingerprint);
    push_flag(args, "--observed-algorithm", &params.observed_algorithm);
    match &params.tags {
        Some(tags) => push_tags(args, tags),
        None => {},
    }
    assert(texts(args@) =~= texts(old(args)@) + trust_flags(*params));
}

/// The arguments for what is to be filled in. Each is handed on as it is: there is no shell.
pub fn push_args(params: &OpenHostEditorParams) -> (r: Vec<String>)
    ensures
        texts(r@) == editor_flags(*params),
{
    let mut args: Vec<String> = Vec::new();
    push_connection(&mut args, params);
    push_trust(&mut args, params);
    assert(texts(args@) =~= editor_flags(*params));
    args
}

/// The editor is opened for an alias only.
pub fn validate_editor(params: &OpenHostEditorParams) -> (r: Result<(), RemoteFailure>)
    ensures
        r is Ok <==> trimmed(params.alias@).len() > 0,
        r matches Err(error) ==> error@ == failure(
            "EDITOR_ALIAS_REQUIRED"@,
            "open_host_editor needs the alias to create or edit."@,
        ),
{
    if is_blank(params.alias.as_str()) {
        return Err(
            RemoteFailure::new(
                "EDITOR_ALIAS_REQUIRED",
                "open_host_editor needs the alias to create or edit.",
            ),
        );
    }
    Ok(())
}

/// How an editor ended.
pub enum EditorEnd {
    NotLaunched(String),
    TimedOut,
    WaitFailed(String),
    /// It exited, with this status, and left no result.
    NoResult(String),
    BadResult(String),
    Result { status: String, alias: Option<String> },
}

/// What the editor said.
#[derive(Debug, PartialEq, Eq)]
pub struct EditorResult {
    pub schema_version: u32,
    pub status: String,
    pub alias: Option<String>,
}

/// Whatever is not a result that the editor wrote is a failure, never a success.
pub fn editor_outcome(end: EditorEnd) -> (r: Result<EditorResult, RemoteFailure>)
    ensures
        match end {
            EditorEnd::Result { status, alias } => r == Ok::<EditorResult, RemoteFailure>(
                EditorResult { schema_version: SCHEMA_VERSION, status, alias },
            ),
            EditorEnd::NotLaunched(reason) => r matches Err(error) && error@ == failure(
                "EDITOR_LAUNCH_FAILED"@,
                reason@,
            ),
            EditorEnd::TimedOut => r matches Err(error) && error@ == failure(
                "EDITOR_TIMEOUT"@,
                "The host editor stayed open for an hour without a result."@,
            ),
            EditorEnd::WaitFailed(reason) => r matches Err(error) && error@ == failure(
                "EDITOR_WAIT_FAILED"@,
                reason@,
            ),
            EditorEnd::NoResult(status) => r matches Err(error) && error@ == failure(
                "EDITOR_NO_RESULT"@,
                "The host editor exited with "@ + status@
                    + " without writing a result; treat it as not saved."@,
            ),
            EditorEnd::BadResult(reason) => r matches Err(error) && error@ == failure(
                "EDITOR_RESULT_INVALID"@,
                reason@,
            ),
        },
{
    match end {
        EditorEnd::Result { status, alias } => Ok(
            EditorResult { schema_version: SCHEMA_VERSION, status, alias },
        ),
        EditorEnd::NotLaunched(reason) => Err(
            RemoteFailure::new("EDITOR_LAUNCH_FAILED", reason.as_str()),
        ),
        EditorEnd::TimedOut => Err(
            RemoteFailure::new(
                "EDITOR_TIMEOUT",
                "The host editor stayed open for an hour without a result.",
            ),
        ),
        EditorEnd::WaitFailed(reason) => Err(
            RemoteFailure::new("EDITOR_WAIT_FAILED", reason.as_str()),
        ),
        EditorEnd::NoResult(status) => {
            let mut message = "The host editor exited with ".to_owned();
            message.append(status.as_str());
            message.append(" without writing a result; treat it as not saved.");
            Err(RemoteFailure::new("EDITOR_NO_RESULT", message.as_str()))
        },
        EditorEnd::BadResult(reason) => Err(
            RemoteFailure::new("EDITOR_RESULT_INVALID", reason.as_str()),
        ),
    }
}

impl EditorResult {
    pub fn json(&self) -> (r: String)
        ensures
            r@ == object(
                0,
                seq![
                    member(0, "schema_version"@, decimal(self.schema_version as nat)),
                    member(0, "status"@, quoted(self.status@)),
                ] + optional(0, "alias"@, optional_text(self.alias)),
            ),
    {
        let mut lines = Lines::new(0);
        lines.put_number("schema_version", self.schema_version as u64);
        lines.put_text("status", self.status.as_str());
        assert(lines@ =~= seq![
            member(0, "schema_version"@, decimal(self.schema_version as nat)),
            member(0, "status"@, quoted(self.status@)),
        ]);
        lines.put_optional("alias", &self.alias);
        lines.into_object()
    }
}

/// What a call asks for bounds it; where it asks for nothing, what the host says in seconds does,
/// else two minutes for connecting and ten for the command.
pub proof fn the_nearest_timeout_wins(advanced: AdvancedModel, timeouts: Timeouts)
    ensures
        timeouts.connect_timeout_ms is Some && timeouts.connect_timeout_ms->0 <= 86_400_000
            ==> limits_for(advanced, timeouts).connect_timeout == timeouts.connect_timeout_ms,
        timeouts.command_timeout_ms is Some && timeouts.command_timeout_ms->0 <= 86_400_000
            ==> limits_for(advanced, timeouts).command_timeout == timeouts.command_timeout_ms,
        timeouts.connect_timeout_ms is None && advanced.connect_timeout_s is None ==> limits_for(
            advanced,
            timeouts,
        ).connect_timeout == Some(120_000u64),
        timeouts.command_timeout_ms is None && advanced.command_timeout_s is None ==> limits_for(
            advanced,
            timeouts,
        ).command_timeout == Some(600_000u64),
        timeouts.connect_timeout_ms is None && (advanced.connect_timeout_s matches Some(s) && s
            <= 600) ==> limits_for(advanced, timeouts).connect_timeout == Some(
            (advanced.connect_timeout_s->0 * 1000) as u64,
        ),
        timeouts.command_timeout_ms is None && (advanced.command_timeout_s matches Some(s) && s
            <= 600) ==> limits_for(advanced, timeouts).command_timeout == Some(
            (advanced.command_timeout_s->0 * 1000) as u64,
        ),
        limits_for(advanced, timeouts).retain_sessions,
        limits_for(advanced, timeouts).total_timeout is None,
        limits_for(advanced, timeouts).output_bytes is None,
{
}

/// A tool reads only exactly where it is a listing, a probe or a look at the temporary secrets;
/// it may destroy something exactly where it runs commands or programs or clears secrets.
pub proof fn tools_are_declared_as_what_they_are(tool: Tool)
    ensures
        tool == Tool::Exec || tool == Tool::ExecStdin || tool == Tool::ExecMany || tool
            == Tool::BatchExec || tool == Tool::TemporarySecretsRun ==> tool.declared()
            == (Annotations {
            read_only_hint: Some(false),
            destructive_hint: Some(true),
            idempotent_hint: None,
            open_world_hint: Some(true),
        }),
        tool == Tool::Probe || tool == Tool::BatchProbe ==> tool.declared().read_only_hint == Some(
            true,
        ) && tool.declared().open_world_hint == Some(true) && tool.declared().destructive_hint
            is None,
        tool == Tool::ListHosts || tool == Tool::AgentIdentities || tool == Tool::FidoIdentities
            || tool == Tool::TemporarySecretsStatus ==> tool.declared().read_only_hint == Some(true)
            && tool.declared().open_world_hint == Some(false),
        tool == Tool::TemporarySecretsClear ==> tool.declared().destructive_hint == Some(true)
            && tool.declared().idempotent_hint == Some(true),
        tool == Tool::Disconnect ==> tool.declared().destructive_hint == Some(false)
            && tool.declared().idempotent_hint == Some(true),
        tool == Tool::OpenHostEditor || tool == Tool::TemporarySecretsOpen
            ==> tool.declared().destructive_hint == Some(false)
            && tool.declared().read_only_hint == Some(false),
{
}

/// A call has a host on its way for itself exactly where that host authenticates for every call;
/// a host that cannot be reached counts as its own way.
pub proof fn hosts_that_authenticate_anew_are_taken_alone(
    target: ProfileModel,
    hosts: Seq<ProfileModel>,
    chain: Seq<ProfileModel>,
    i: int,
)
    requires
        is_chain(target, hosts, chain),
        target.protocol == Protocol::Ssh,
        0 <= i < chain.len(),
    ensures
        chain[i].persistence() == AuthPersistence::PerCall ==> is_exclusive(
            target,
            hosts,
            chain[i].id,
        ),
        (forall|k: int|
            0 <= k < chain.len() ==> (#[trigger] chain[k]).persistence() != AuthPersistence::PerCall)
            ==> !is_exclusive(target, hosts, chain[i].id),
{
    let way = hosts_on_the_way(target, hosts);
    let chosen = choose|found: Seq<ProfileModel>| is_chain(target, hosts, found);
    assert(has_chain(target, hosts));
    chain_is_unique(target, hosts, chain, chosen);
    assert(way == chain);
    assert(way[i].id == chain[i].id);
}

/// A host that says nothing else allows eight commands at a time.
pub proof fn channels_are_as_the_host_says(advanced: AdvancedModel)
    ensures
        advanced.max_channels matches Some(n) ==> channels_of(advanced) == n,
        advanced.max_channels is None ==> channels_of(advanced)
            == crate::model::DEFAULT_CHANNELS_PER_HOST,
{
}

/// Every value that the editor is to show of the connection is handed over behind the flag of its
/// name.
pub proof fn values_stand_behind_their_flags(params: OpenHostEditorParams)
    ensures
        follows(connection_flags(params), "--alias"@, params.alias@),
        params.host matches Some(value) ==> follows(
            connection_flags(params),
            "--host"@,
            value@,
        ),
        params.port matches Some(value) ==> follows(
            connection_flags(params),
            "--port"@,
            decimal(value as nat),
        ),
        params.user matches Some(value) ==> follows(
            connection_flags(params),
            "--user"@,
            value@,
        ),
        params.protocol matches Some(value) ==> follows(
            connection_flags(params),
            "--protocol"@,
            value@,
        ),
        params.auth matches Some(value) ==> follows(
            connection_flags(params),
            "--auth"@,
            value@,
        ),
        params.key_path matches Some(value) ==> follows(
            connection_flags(params),
            "--key-path"@,
            value@,
        ),
{
    let none = Seq::<Seq<char>>::empty();
    let f0 = flag("--alias"@, Some(params.alias@));
    let f1 = flag("--host"@, optional_text(params.host));
    let f2 = flag("--port"@, port_text(params.port));
    let f3 = flag("--user"@, optional_text(params.user));
    let f4 = flag("--protocol"@, optional_text(params.protocol));
    let f5 = flag("--auth"@, optional_text(params.auth));
    let f6 = flag("--key-path"@, optional_text(params.key_path));
    let s0 = f0;
    let s1 = s0 + f1;
    let s2 = s1 + f2;
    let s3 = s2 + f3;
    let s4 = s3 + f4;
    let s5 = s4 + f5;
    let s6 = s5 + f6;
    assert(none + f0 =~= s0);
    lemma_flag(none, "--alias"@, Some(params.alias@));
    assert(none + s0 + f1 =~= s1);
    lemma_follows_within(none, s0, f1, "--alias"@, params.alias@);
    assert(none + s1 + f2 =~= s2);
    lemma_follows_within(none, s1, f2, "--alias"@, params.alias@);
    assert(none + s2 + f3 =~= s3);
    lemma_follows_within(none, s2, f3, "--alias"@, params.alias@);
    assert(none + s3 + f4 =~= s4);
    lemma_follows_within(none, s3, f4, "--alias"@, params.alias@);
    assert(none + s4 + f5 =~= s5);
    lemma_follows_within(none, s4, f5, "--alias"@, params.alias@);
    assert(none + s5 + f6 =~= s6);
    lemma_follows_within(none, s5, f6, "--alias"@, params.alias@);
    if params.host is Some {
        lemma_flag(s0, "--host"@, optional_text(params.host));
        assert(none + s1 + f2 =~= s2);
        lemma_follows_within(none, s1, f2, "--host"@, params.host->0@);
        assert(none + s2 + f3 =~= s3);
        lemma_follows_within(none, s2, f3, "--host"@, params.host->0@);
        assert(none + s3 + f4 =~= s4);
        lemma_follows_within(none, s3, f4, "--host"@, params.host->0@);
        assert(none + s4 + f5 =~= s5);
        lemma_follows_within(none, s4, f5, "--host"@, params.host->0@);
        assert(none + s5 + f6 =~= s6);
        lemma_follows_within(none, s5, f6, "--host"@, params.host->0@);
    }
    if params.port is Some {
        lemma_flag(s1, "--port"@, port_text(params.port));
        assert(none + s2 + f3 =~= s3);
        lemma_follows_within(none, s2, f3, "--port"@, decimal(params.port->0 as nat));
        assert(none + s3 + f4 =~= s4);
        lemma_follows_within(none, s3, f4, "--port"@, decimal(params.port->0 as nat));
        assert(none + s4 + f5 =~= s5);
        lemma_follows_within(none, s4, f5, "--port"@, decimal(params.port->0 as nat));
        assert(none + s5 + f6 =~= s6);
        lemma_follows_within(none, s5, f6, "--port"@, decimal(params.port->0 as nat));
    }
    if params.user is Some {
        lemma_flag(s2, "--user"@, optional_text(params.user));
        assert(none + s3 + f4 =~= s4);
        lemma_follows_within(none, s3, f4, "--user"@, params.user->0@);
        assert(none + s4 + f5 =~= s5);
        lemma_follows_within(none, s4, f5, "--user"@, params.user->0@);
        assert(none + s5 + f6 =~= s6);
        lemma_follows_within(none, s5, f6, "--user"@, params.user->0@);
    }
    if params.protocol is Some {
        lemma_flag(s3, "--protocol"@, optional_text(params.protocol));
        assert(none + s4 + f5 =~= s5);
        lemma_follows_within(none, s4, f5, "--protocol"@, params.protocol->0@);
        assert(none + s5 + f6 =~= s6);
        lemma_follows_within(none, s5, f6, "--protocol"@, params.protocol->0@);
    }
    if params.auth is Some {
        lemma_flag(s4, "--auth"@, optional_text(params.auth));
        assert(none + s5 + f6 =~= s6);
        lemma_follows_within(none, s5, f6, "--auth"@, params.auth->0@);
    }
    if params.key_path is Some {
        lemma_flag(s5, "--key-path"@, optional_text(params.key_path));
    }
}

/// So is what is known of its keys, its jump host and its description.
pub proof fn trust_stands_behind_its_flags(params: OpenHostEditorParams)
    ensures
        params.agent_key_fingerprint matches Some(value) ==> follows(
            trust_flags(params),
            "--agent-key-fingerprint"@,
            value@,
        ),
        params.jump_host matches Some(value) ==> follows(
            trust_flags(params),
            "--jump-host"@,
            value@,
        ),
        params.description matches Some(value) ==> follows(
            trust_flags(params),
            "--description"@,
            value@,
        ),
        params.observed_fingerprint matches Some(value) ==> follows(
            trust_flags(params),
            "--observed-fingerprint"@,
            value@,
        ),
        params.observed_algorithm matches Some(value) ==> follows(
            trust_flags(params),
            "--observed-algorithm"@,
            value@,
        ),
{
    let none = Seq::<Seq<char>>::empty();
    let f0 = flag("--agent-key-fingerprint"@, optional_text(params.agent_key_fingerprint));
    let f1 = flag("--jump-host"@, optional_text(params.jump_host));
    let f2 = flag("--description"@, optional_text(params.description));
    let f3 = flag("--observed-fingerprint"@, optional_text(params.observed_fingerprint));
    let f4 = flag("--observed-algorithm"@, optional_text(params.observed_algorithm));
    let f5 = tag_flags(optional_texts(params.tags));
    let s0 = f0;
    let s1 = s0 + f1;
    let s2 = s1 + f2;
    let s3 = s2 + f3;
    let s4 = s3 + f4;
    let s5 = s4 + f5;
    if params.agent_key_fingerprint is Some {
        assert(none + f0 =~= s0);
        lemma_flag(none, "--agent-key-fingerprint"@, optional_text(params.agent_key_fingerprint));
        assert(none + s0 + f1 =~= s1);
        lemma_follows_within(none, s0, f1, "--agent-key-fingerprint"@, params.agent_key_fingerprint->0@);
        assert(none + s1 + f2 =~= s2);
        lemma_follows_within(none, s1, f2, "--agent-key-fingerprint"@, params.agent_key_fingerprint->0@);
        assert(none + s2 + f3 =~= s3);
        lemma_follows_within(none, s2, f3, "--agent-key-fingerprint"@, params.agent_key_fingerprint->0@);
        assert(none + s3 + f4 =~= s4);
        lemma_follows_within(none, s3, f4, "--agent-key-fingerprint"@, params.agent_key_fingerprint->0@);
        assert(none + s4 + f5 =~= s5);
        lemma_follows_within(none, s4, f5, "--agent-key-fingerprint"@, params.agent_key_fingerprint->0@);
    }
    if params.jump_host is Some {
        lemma_flag(s0, "--jump-host"@, optional_text(params.jump_host));
        assert(none + s1 + f2 =~= s2);
        lemma_follows_within(none, s1, f2, "--jump-host"@, params.jump_host->0@);
        assert(none + s2 + f3 =~= s3);
        lemma_follows_within(none, s2, f3, "--jump-host"@, params.jump_host->0@);
        assert(none + s3 + f4 =~= s4);
        lemma_follows_within(none, s3, f4, "--jump-host"@, params.jump_host->0@);
        assert(none + s4 + f5 =~= s5);
        lemma_follows_within(none, s4, f5, "--jump-host"@, params.jump_host->0@);
    }
    if params.description is Some {
        lemma_flag(s1, "--description"@, optional_text(params.description));
        assert(none + s2 + f3 =~= s3);
        lemma_follows_within(none, s2, f3, "--description"@, params.description->0@);
        assert(none + s3 + f4 =~= s4);
        lemma_follows_within(none, s3, f4, "--description"@, params.description->0@);
        assert(none + s4 + f5 =~= s5);
        lemma_follows_within(none, s4, f5, "--description"@, params.description->0@);
    }
    if params.observed_fingerprint is Some {
        lemma_flag(s2, "--observed-fingerprint"@, optional_text(params.observed_fingerprint));
        assert(none + s3 + f4 =~= s4);
        lemma_follows_within(none, s3, f4, "--observed-fingerprint"@, params.observed_fingerprint->0@);
        assert(none + s4 + f5 =~= s5);
        lemma_follows_within(none, s4, f5, "--observed-fingerprint"@, params.observed_fingerprint->0@);
    }
    if params.observed_algorithm is Some {
        lemma_flag(s3, "--observed-algorithm"@, optional_text(params.observed_algorithm));
        assert(none + s4 + f5 =~= s5);
        lemma_follows_within(none, s4, f5, "--observed-algorithm"@, params.observed_algorithm->0@);
    }
}

/// The editor gets both, and nothing else; every tag has a flag of its own.
pub proof fn the_editor_gets_every_value(
    params: OpenHostEditorParams,
    name: Seq<char>,
    value: Seq<char>,
)
    ensures
        follows(connection_flags(params), name, value) ==> follows(
            editor_flags(params),
            name,
            value,
        ),
        follows(trust_flags(params), name, value) ==> follows(editor_flags(params), name, value),
        editor_flags(params).len() == connection_flags(params).len() + trust_flags(params).len(),
{
    let none = Seq::<Seq<char>>::empty();
    let a = connection_flags(params);
    let b = trust_flags(params);
    assert(none + a + b =~= editor_flags(params));
    assert(a + b + none =~= editor_flags(params));
    if follows(a, name, value) {
        lemma_follows_within(none, a, b, name, value);
    }
    if follows(b, name, value) {
        lemma_follows_within(a, b, none, name, value);
    }
}

/// Every tag is handed over behind a flag of its own.
pub proof fn every_tag_has_its_flag(tags: Seq<Seq<char>>, i: int)
    requires
        0 <= i < tags.len(),
    ensures
        tag_flags(tags).len() == 2 * tags.len(),
        tag_flags(tags)[2 * i] == "--tag"@,
        tag_flags(tags)[2 * i + 1] == tags[i],
    decreases tags.len(),
{
    if tags.len() > 1 {
        if i < tags.len() - 1 {
            every_tag_has_its_flag(tags.drop_last(), i);
        } else {
            every_tag_has_its_flag(tags.drop_last(), 0);
        }
    } else {
        assert(tag_flags(tags.drop_last()).len() == 0);
    }
}

/// A value stands right behind a flag among arguments.
pub open spec fn follows(args: Seq<Seq<char>>, name: Seq<char>, value: Seq<char>) -> bool {
    exists|i: int| 0 <= i < args.len() - 1 && (#[trigger] args[i]) == name && args[i + 1] == value
}

proof fn lemma_flag(front: Seq<Seq<char>>, name: Seq<char>, value: Option<Seq<char>>)
    requires
        value is Some,
    ensures
        follows(front + flag(name, value), name, value->0),
{
    let all = front + flag(name, value);
    let at = front.len() as int;
    assert(all[at] == name && all[at + 1] == value->0);
}

/// What stands behind a flag among some arguments stands there among more.
proof fn lemma_follows_within(
    front: Seq<Seq<char>>,
    args: Seq<Seq<char>>,
    back: Seq<Seq<char>>,
    name: Seq<char>,
    value: Seq<char>,
)
    requires
        follows(args, name, value),
    ensures
        follows(front + args + back, name, value),
{
    let i = choose|i: int|
        0 <= i < args.len() - 1 && (#[trigger] args[i]) == name && args[i + 1] == value;
    let all = front + args + back;
    let at = front.len() + i;
    assert(all[at] == name && all[at + 1] == value);
}

} // verus!

//! The rules of tool requests: what is asked, which hosts it names, and what may be run on them.
use vstd::prelude::*;

use crate::failure::{failure, FailureModel, RemoteFailure};
use crate::id::Id;
use crate::model::{alias_owner, alias_taken, find_alias_index, models, HostProfile, ProfileModel};
use crate::remote::{validate_stdin, OperationLimits};
use crate::temporary_secrets::Request;
use crate::text::{
    ascii_lower, byte_len, is_blank, same_text, texts, to_ascii_lower, trim, trimmed, utf8_len,
};

verus! {

pub const SCHEMA_VERSION: u32 = 1;

pub const DEFAULT_BATCH_CONCURRENCY: usize = 8;

pub const MAX_BATCH_CONCURRENCY: usize = 16;

pub const MAX_BATCH_HOSTS: usize = 256;

/// Bytes that a whole batch may return, as JSON.
pub const MAX_BATCH_OUTPUT_BYTES: usize = 8 * 1024 * 1024;

/// Bytes that one host of a batch may return.
pub const MAX_SINGLE_RESULT_OUTPUT_BYTES: usize = 2 * 1024 * 1024;

pub const MAX_EXEC_MANY_COMMANDS: usize = 64;

pub const MAX_ALIAS_BYTES: usize = 256;

/// The longest timeout, one day.
pub const MAX_TOOL_TIMEOUT_MS: u64 = 24 * 60 * 60 * 1000;

/// Bounds of an operation as they are asked for, in milliseconds.
#[derive(Debug, Clone, Copy, PartialEq, Eq, Structural)]
pub struct Timeouts {
    pub connect_timeout_ms: Option<u64>,
    pub command_timeout_ms: Option<u64>,
}

/// A request to run something on several hosts.
#[derive(Debug, Clone, Copy, PartialEq, Eq, Structural)]
pub struct BatchOptions {
    pub max_concurrency: Option<usize>,
    pub timeouts: Timeouts,
    pub batch_timeout_ms: Option<u64>,
    pub continue_on_error: bool,
}

#[derive(Debug)]
pub enum ToolRequest {
    Capabilities,
    TemporarySecretsOpen { fields: Vec<String> },
    TemporarySecrets { session: Id, request: Request },
    AgentIdentities,
    FidoIdentities,
    ListHosts { tags: Vec<String> },
    Probe { alias: String, timeouts: Timeouts },
    Exec { alias: String, command: String, stdin: Option<String>, timeouts: Timeouts },
    ExecMany {
        alias: String,
        commands: Vec<String>,
        stdin: Option<String>,
        max_concurrency: Option<usize>,
        timeouts: Timeouts,
    },
    BatchProbe { aliases: Vec<String>, options: BatchOptions },
    BatchExec {
        aliases: Vec<String>,
        command: String,
        stdin: Option<String>,
        options: BatchOptions,
    },
}

/// A batch goes on after a failure unless it is told not to.
pub fn default_continue_on_error() -> (r: bool)
    ensures
        r,
{
    true
}

/// What is wrong with the input of a request, if anything is.
pub open spec fn input_fault(request: ToolRequest) -> Option<FailureModel> {
    match request {
        ToolRequest::Exec { stdin: Some(text), .. } => if utf8_len(text@)
            > crate::remote::MAX_STDIN_BYTES {
            Some(
                failure(
                    "STDIN_TOO_LARGE"@,
                    "Optional stdin is limited to 1 MiB of UTF-8 text."@,
                ),
            )
        } else {
            None
        },
        ToolRequest::ExecMany { stdin: Some(_), .. }
        | ToolRequest::BatchExec { stdin: Some(_), .. } => Some(
            failure(
                "STDIN_UNSUPPORTED"@,
                "stdin is supported only by single-host SSH exec."@,
            ),
        ),
        _ => None,
    }
}

fn unsupported_stdin() -> (r: RemoteFailure)
    ensures
        r@ == failure(
            "STDIN_UNSUPPORTED"@,
            "stdin is supported only by single-host SSH exec."@,
        ),
{
    RemoteFailure::new("STDIN_UNSUPPORTED", "stdin is supported only by single-host SSH exec.")
}

/// Input goes to a single command on a single host, and is bounded.
pub fn validate_request_input(request: &ToolRequest) -> (r: Result<(), RemoteFailure>)
    ensures
        match input_fault(*request) {
            Some(fault) => r matches Err(error) && error@ == fault,
            None => r is Ok,
        },
{
    match request {
        ToolRequest::Exec { stdin, .. } => match stdin {
            Some(text) => validate_stdin(Some(text.as_str())),
            None => Ok(()),
        },
        ToolRequest::ExecMany { stdin, .. } => match stdin {
            Some(_) => Err(unsupported_stdin()),
            None => Ok(()),
        },
        ToolRequest::BatchExec { stdin, .. } => match stdin {
            Some(_) => Err(unsupported_stdin()),
            None => Ok(()),
        },
        _ => Ok(()),
    }
}

/// A timeout in milliseconds, at most a day.
pub open spec fn capped(milliseconds: u64) -> u64 {
    if milliseconds > MAX_TOOL_TIMEOUT_MS {
        MAX_TOOL_TIMEOUT_MS
    } else {
        milliseconds
    }
}

pub open spec fn capped_option(milliseconds: Option<u64>) -> Option<u64> {
    match milliseconds {
        Some(value) => Some(capped(value)),
        None => None,
    }
}

pub fn timeout_duration(milliseconds: u64) -> (r: u64)
    ensures
        r == capped(milliseconds),
        r <= MAX_TOOL_TIMEOUT_MS,
{
    if milliseconds > MAX_TOOL_TIMEOUT_MS {
        MAX_TOOL_TIMEOUT_MS
    } else {
        milliseconds
    }
}

/// The limits of an operation.
pub open spec fn limited(timeouts: Timeouts, total_timeout: Option<u64>) -> OperationLimits {
    OperationLimits {
        total_timeout,
        connect_timeout: capped_option(timeouts.connect_timeout_ms),
        command_timeout: capped_option(timeouts.command_timeout_ms),
        output_bytes: None,
        batch_scope: None,
        retain_sessions: false,
    }
}

pub fn limits(timeouts: Timeouts, total_timeout: Option<u64>) -> (r: OperationLimits)
    ensures
        r == limited(timeouts, total_timeout),
{
    OperationLimits {
        total_timeout,
        connect_timeout: match timeouts.connect_timeout_ms {
            Some(value) => Some(timeout_duration(value)),
            None => None,
        },
        command_timeout: match timeouts.command_timeout_ms {
            Some(value) => Some(timeout_duration(value)),
            None => None,
        },
        output_bytes: None,
        batch_scope: None,
        retain_sessions: false,
    }
}

/// The text is not blank, and not too long.
pub open spec fn alias_ok(alias: Seq<char>) -> bool {
    trimmed(alias).len() > 0 && utf8_len(alias) <= MAX_ALIAS_BYTES
}

pub open spec fn alias_invalid() -> FailureModel {
    failure("ALIAS_INVALID"@, "A host alias must contain 1 to 256 UTF-8 bytes."@)
}

pub fn validate_alias(alias: &str) -> (r: Result<(), RemoteFailure>)
    ensures
        r is Ok <==> alias_ok(alias@),
        r matches Err(error) ==> error@ == alias_invalid(),
{
    if is_blank(alias) || byte_len(alias) > MAX_ALIAS_BYTES {
        return Err(
            RemoteFailure::new("ALIAS_INVALID", "A host alias must contain 1 to 256 UTF-8 bytes."),
        );
    }
    Ok(())
}

/// Why no host of this alias may be used, if none may.
pub open spec fn lookup_fault(hosts: Seq<ProfileModel>, alias: Seq<char>) -> Option<FailureModel> {
    if !alias_ok(alias) {
        Some(alias_invalid())
    } else if !alias_taken(hosts, trimmed(alias)) {
        Some(failure("ALIAS_NOT_FOUND"@, "No saved host is named "@ + alias + "."@))
    } else if hosts[owner_of(hosts, alias)].advanced.codex_hidden {
        Some(
            failure(
                "HOST_HIDDEN"@,
                "The host "@ + alias + " is hidden from Codex in its profile."@,
            ),
        )
    } else {
        None
    }
}

/// Position of the host that has the alias.
pub open spec fn owner_of(hosts: Seq<ProfileModel>, alias: Seq<char>) -> int {
    choose|at: int| alias_owner(hosts, trimmed(alias), at)
}

proof fn lemma_owner(hosts: Seq<ProfileModel>, alias: Seq<char>, at: int)
    requires
        alias_owner(hosts, trimmed(alias), at),
    ensures
        owner_of(hosts, alias) == at,
        alias_taken(hosts, trimmed(alias)),
{
    let found = owner_of(hosts, alias);
    assert(alias_owner(hosts, trimmed(alias), found));
    if found < at {
        assert(!crate::text::same_ignoring_case(hosts[found].alias, trimmed(alias)));
    }
    if at < found {
        assert(!crate::text::same_ignoring_case(hosts[at].alias, trimmed(alias)));
    }
}

/// Position of the host that a tool may use under this alias. A hidden host exists for its user
/// only.
pub fn find_host_index(hosts: &[HostProfile], alias: &str) -> (r: Result<usize, RemoteFailure>)
    ensures
        match lookup_fault(models(hosts@), alias@) {
            Some(fault) => r matches Err(error) && error@ == fault,
            None => r matches Ok(at) && at < hosts@.len() && at == owner_of(
                models(hosts@),
                alias@,
            ),
        },
{
    if let Err(error) = validate_alias(alias) {
        return Err(error);
    }
    let at = match find_alias_index(hosts, alias) {
        Some(at) => at,
        None => {
            let mut message = "No saved host is named ".to_owned();
            message.append(alias);
            message.append(".");
            return Err(RemoteFailure::new("ALIAS_NOT_FOUND", message.as_str()));
        },
    };
    proof {
        lemma_owner(models(hosts@), alias@, at as int);
    }
    if hosts[at].advanced.codex_hidden {
        let mut message = "The host ".to_owned();
        message.append(alias);
        message.append(" is hidden from Codex in its profile.");
        return Err(RemoteFailure::new("HOST_HIDDEN", message.as_str()));
    }
    Ok(at)
}

/// The host that a tool may use under this alias.
pub fn find_host_in<'a>(hosts: &'a [HostProfile], alias: &str) -> (r: Result<
    &'a HostProfile,
    RemoteFailure,
>)
    ensures
        match lookup_fault(models(hosts@), alias@) {
            Some(fault) => r matches Err(error) && error@ == fault,
            None => 0 <= owner_of(models(hosts@), alias@) < hosts@.len() && (r matches Ok(host)
                && *host == hosts@[owner_of(models(hosts@), alias@)]),
        },
{
    match find_host_index(hosts, alias) {
        Ok(at) => Ok(&hosts[at]),
        Err(error) => Err(error),
    }
}

pub fn find_host<'a>(store: &'a crate::storage::HostStore, alias: &str) -> (r: Result<
    &'a HostProfile,
    RemoteFailure,
>)
    ensures
        match lookup_fault(store@.hosts, alias@) {
            Some(fault) => r matches Err(error) && error@ == fault,
            None => 0 <= owner_of(store@.hosts, alias@) < store.hosts@.len() && (r matches Ok(host)
                && *host == store.hosts@[owner_of(store@.hosts, alias@)]),
        },
{
    find_host_in(store.hosts.as_slice(), alias)
}

/// A host that is hidden from tools is never handed to one.
pub proof fn hidden_hosts_are_not_found(hosts: Seq<ProfileModel>, alias: Seq<char>)
    requires
        lookup_fault(hosts, alias) is None,
    ensures
        !hosts[owner_of(hosts, alias)].advanced.codex_hidden,
{
}

/// What is wrong with a list of commands, if anything is.
pub open spec fn commands_fault(commands: Seq<Seq<char>>) -> Option<FailureModel> {
    if commands.len() == 0 {
        Some(failure("COMMANDS_REQUIRED"@, "exec_many requires a non-empty command list."@))
    } else if commands.len() > MAX_EXEC_MANY_COMMANDS {
        Some(failure("TOO_MANY_COMMANDS"@, "exec_many accepts at most 64 commands."@))
    } else if exists|i: int| 0 <= i < commands.len() && (#[trigger] commands[i]).len() == 0 {
        Some(failure("COMMAND_INVALID"@, "exec_many does not accept empty commands."@))
    } else {
        None
    }
}

pub fn validate_commands(commands: &Vec<String>) -> (r: Result<(), RemoteFailure>)
    ensures
        match commands_fault(texts(commands@)) {
            Some(fault) => r matches Err(error) && error@ == fault,
            None => r is Ok,
        },
{
    if commands.len() == 0 {
        return Err(
            RemoteFailure::new("COMMANDS_REQUIRED", "exec_many requires a non-empty command list."),
        );
    }
    if commands.len() > MAX_EXEC_MANY_COMMANDS {
        return Err(
            RemoteFailure::new("TOO_MANY_COMMANDS", "exec_many accepts at most 64 commands."),
        );
    }
    let mut i: usize = 0;
    while i < commands.len()
        invariant
            i <= commands@.len(),
            0 < commands@.len() <= MAX_EXEC_MANY_COMMANDS,
            forall|j: int| 0 <= j < i ==> (#[trigger] texts(commands@)[j]).len() > 0,
        decreases commands@.len() - i,
    {
        if commands[i].as_str().is_empty() {
            assert(texts(commands@)[i as int].len() == 0);
            return Err(
                RemoteFailure::new("COMMAND_INVALID", "exec_many does not accept empty commands."),
            );
        }
        i = i + 1;
    }
    Ok(())
}

/// What is wrong with a stored host, if anything is.
pub open spec fn profile_fault(host: ProfileModel) -> Option<FailureModel> {
    match host.issue() {
        Some(issue) => Some(
            failure("PROFILE_INVALID"@, "The saved host is invalid: "@ + issue.variant()),
        ),
        None => None,
    }
}

pub fn validate_profile(profile: &HostProfile) -> (r: Result<(), RemoteFailure>)
    ensures
        match profile_fault(profile@) {
            Some(fault) => r matches Err(error) && error@ == fault,
            None => r is Ok,
        },
{
    match profile.validation_issue() {
        Some(issue) => {
            let mut message = "The saved host is invalid: ".to_owned();
            message.append(issue.variant_name());
            Err(RemoteFailure::new("PROFILE_INVALID", message.as_str()))
        },
        None => Ok(()),
    }
}

/// A failure that names its host.
pub open spec fn failure_of(
    alias: Seq<char>,
    code: Seq<char>,
    message: Seq<char>,
) -> FailureModel {
    FailureModel { host_alias: Some(alias), ..failure(code, message) }
}

pub fn failure_for_alias(alias: &str, code: &'static str, message: &str) -> (r: RemoteFailure)
    ensures
        r@ == failure_of(alias@, code@, message@),
{
    let mut failure = RemoteFailure::new(code, message);
    failure.host_alias = Some(alias.to_owned());
    failure
}

/// How an alias is compared with the others of a batch.
pub open spec fn alias_key(alias: Seq<char>) -> Seq<char> {
    ascii_lower(trimmed(alias))
}

/// An earlier alias of the batch names the same host.
pub open spec fn repeated(aliases: Seq<Seq<char>>, i: int) -> bool {
    exists|j: int| 0 <= j < i && alias_key(#[trigger] aliases[j]) == alias_key(aliases[i])
}

/// What is wrong with one alias of a batch, if anything is.
pub open spec fn batch_alias_fault(
    hosts: Seq<ProfileModel>,
    aliases: Seq<Seq<char>>,
    i: int,
) -> Option<FailureModel> {
    if !alias_ok(aliases[i]) {
        Some(alias_invalid())
    } else if repeated(aliases, i) {
        Some(
            failure(
                "BATCH_ALIAS_INVALID"@,
                "The batch contains an empty or duplicate alias: "@ + aliases[i] + "."@,
            ),
        )
    } else if lookup_fault(hosts, aliases[i]) is Some {
        lookup_fault(hosts, aliases[i])
    } else {
        profile_fault(hosts[owner_of(hosts, aliases[i])])
    }
}

/// What is wrong with the list of a batch as a whole, if anything is.
pub open spec fn batch_size_fault(count: nat) -> Option<FailureModel> {
    if count == 0 {
        Some(
            failure(
                "BATCH_ALIASES_REQUIRED"@,
                "Batch operations require an explicit, non-empty alias list."@,
            ),
        )
    } else if count > MAX_BATCH_HOSTS {
        Some(failure("BATCH_TOO_LARGE"@, "A batch may contain at most 256 hosts."@))
    } else {
        None
    }
}

/// The first alias of a batch that something is wrong with stands at `i`.
pub open spec fn first_fault(
    hosts: Seq<ProfileModel>,
    aliases: Seq<Seq<char>>,
    i: int,
) -> bool {
    &&& 0 <= i < aliases.len()
    &&& batch_alias_fault(hosts, aliases, i) is Some
    &&& forall|j: int| 0 <= j < i ==> (#[trigger] batch_alias_fault(hosts, aliases, j)) is None
}

/// The hosts that a batch names are these.
pub open spec fn batch_resolves(
    hosts: Seq<ProfileModel>,
    aliases: Seq<Seq<char>>,
    found: Seq<ProfileModel>,
) -> bool {
    &&& batch_size_fault(aliases.len()) is None
    &&& forall|i: int|
        0 <= i < aliases.len() ==> (#[trigger] batch_alias_fault(hosts, aliases, i)) is None
    &&& found.len() == aliases.len()
    &&& forall|i: int|
        0 <= i < aliases.len() ==> (#[trigger] found[i]) == hosts[owner_of(hosts, aliases[i])]
}

fn repeats_earlier(keys: &Vec<String>, key: &str) -> (r: bool)
    ensures
        r == exists|j: int| 0 <= j < keys@.len() && (#[trigger] keys@[j])@ == key@,
{
    let mut i: usize = 0;
    while i < keys.len()
        invariant
            i <= keys@.len(),
            forall|j: int| 0 <= j < i ==> (#[trigger] keys@[j])@ != key@,
        decreases keys@.len() - i,
    {
        if same_text(keys[i].as_str(), key) {
            assert(keys@[i as int]@ == key@);
            return true;
        }
        i = i + 1;
    }
    false
}

/// The hosts that a batch names, in its order. A batch names its hosts one by one: an empty list
/// never stands for all of them, no host occurs twice, and one bad alias refuses the batch before
/// anything is connected.
pub fn resolve_batch_hosts(hosts: &[HostProfile], aliases: &Vec<String>) -> (r: Result<
    Vec<HostProfile>,
    RemoteFailure,
>)
    ensures
        match r {
            Ok(found) => batch_resolves(models(hosts@), texts(aliases@), models(found@)),
            Err(error) => match batch_size_fault(aliases@.len()) {
                Some(fault) => error@ == fault,
                None => exists|i: int| #[trigger]
                    first_fault(models(hosts@), texts(aliases@), i) && error@
                        == batch_alias_fault(models(hosts@), texts(aliases@), i)->0,
            },
        },
{
    if aliases.len() == 0 {
        return Err(
            RemoteFailure::new(
                "BATCH_ALIASES_REQUIRED",
                "Batch operations require an explicit, non-empty alias list.",
            ),
        );
    }
    if aliases.len() > MAX_BATCH_HOSTS {
        return Err(
            RemoteFailure::new("BATCH_TOO_LARGE", "A batch may contain at most 256 hosts."),
        );
    }
    let ghost known = models(hosts@);
    let ghost names = texts(aliases@);
    let mut seen: Vec<String> = Vec::new();
    let mut resolved: Vec<HostProfile> = Vec::new();
    let mut i: usize = 0;
    while i < aliases.len()
        invariant
            i <= aliases@.len(),
            0 < aliases@.len() <= MAX_BATCH_HOSTS,
            known == models(hosts@),
            names == texts(aliases@),
            seen@.len() == i,
            forall|j: int| 0 <= j < i ==> (#[trigger] seen@[j])@ == alias_key(names[j]),
            models(resolved@).len() == i,
            forall|j: int|
                0 <= j < i ==> (#[trigger] models(resolved@)[j]) == known[owner_of(
                    known,
                    names[j],
                )],
            forall|j: int|
                0 <= j < i ==> (#[trigger] batch_alias_fault(known, names, j)) is None,
        decreases aliases@.len() - i,
    {
        let alias = aliases[i].as_str();
        assert(alias@ == names[i as int]);
        if let Err(error) = validate_alias(alias) {
            assert(first_fault(known, names, i as int));
            return Err(error);
        }
        let key = to_ascii_lower(trim(alias));
        if repeats_earlier(&seen, key.as_str()) {
            proof {
                let j = choose|j: int| 0 <= j < seen@.len() && (#[trigger] seen@[j])@ == key@;
                assert(alias_key(names[j]) == alias_key(names[i as int]));
                assert(repeated(names, i as int));
                assert(first_fault(known, names, i as int));
            }
            let mut message = "The batch contains an empty or duplicate alias: ".to_owned();
            message.append(alias);
            message.append(".");
            return Err(RemoteFailure::new("BATCH_ALIAS_INVALID", message.as_str()));
        }
        proof {
            if repeated(names, i as int) {
                let j = choose|j: int|
                    0 <= j < i && alias_key(#[trigger] names[j]) == alias_key(names[i as int]);
                assert(seen@[j]@ == key@);
            }
        }
        let host = match find_host_in(hosts, alias) {
            Ok(host) => host,
            Err(error) => {
                assert(first_fault(known, names, i as int));
                return Err(error);
            },
        };
        if let Err(error) = validate_profile(host) {
            assert(first_fault(known, names, i as int));
            return Err(error);
        }
        let ghost before = models(resolved@);
        seen.push(key);
        resolved.push(host.clone());
        assert(models(resolved@) =~= before.push(host@));
        i = i + 1;
    }
    Ok(resolved)
}

/// A batch works on the hosts that its list names and on no others: an empty list never means all
/// hosts.
pub proof fn a_batch_names_its_hosts(
    hosts: Seq<ProfileModel>,
    aliases: Seq<Seq<char>>,
    found: Seq<ProfileModel>,
    i: int,
)
    requires
        batch_resolves(hosts, aliases, found),
    ensures
        0 < aliases.len() <= MAX_BATCH_HOSTS,
        found.len() == aliases.len(),
        0 <= i < found.len() ==> found[i] == hosts[owner_of(hosts, aliases[i])],
        0 <= i < found.len() ==> lookup_fault(hosts, aliases[i]) is None,
{
    if 0 <= i < found.len() {
        assert(batch_alias_fault(hosts, aliases, i) is None);
        assert(found[i] == hosts[owner_of(hosts, aliases[i])]);
    }
}

/// The hosts of a batch are different ones.
pub proof fn batch_hosts_are_distinct(
    hosts: Seq<ProfileModel>,
    aliases: Seq<Seq<char>>,
    found: Seq<ProfileModel>,
    i: int,
    j: int,
)
    requires
        batch_resolves(hosts, aliases, found),
        0 <= i < j < aliases.len(),
    ensures
        owner_of(hosts, aliases[i]) != owner_of(hosts, aliases[j]),
        !found[i].advanced.codex_hidden,
        found[i].issue() is None,
{
    assert(batch_alias_fault(hosts, aliases, i) is None);
    assert(batch_alias_fault(hosts, aliases, j) is None);
    let a = owner_of(hosts, aliases[i]);
    let b = owner_of(hosts, aliases[j]);
    lemma_owner_exists(hosts, aliases[i]);
    lemma_owner_exists(hosts, aliases[j]);
    assert(found[i] == hosts[a]);
    if a == b {
        assert(alias_key(aliases[i]) == alias_key(aliases[j]));
        assert(repeated(aliases, j));
    }
}

proof fn lemma_owner_exists(hosts: Seq<ProfileModel>, alias: Seq<char>)
    requires
        alias_taken(hosts, trimmed(alias)),
    ensures
        alias_owner(hosts, trimmed(alias), owner_of(hosts, alias)),
{
    let some = choose|i: int|
        0 <= i < hosts.len() && crate::text::same_ignoring_case(
            #[trigger] hosts[i].alias,
            trimmed(alias),
        );
    let at = lemma_first_owner(hosts, alias, some);
    assert(alias_owner(hosts, trimmed(alias), at));
}

proof fn lemma_first_owner(hosts: Seq<ProfileModel>, alias: Seq<char>, some: int) -> (at: int)
    requires
        0 <= some < hosts.len(),
        crate::text::same_ignoring_case(hosts[some].alias, trimmed(alias)),
    ensures
        alias_owner(hosts, trimmed(alias), at),
    decreases some,
{
    if forall|i: int|
        0 <= i < some ==> !crate::text::same_ignoring_case(
            #[trigger] hosts[i].alias,
            trimmed(alias),
        ) {
        some
    } else {
        let earlier = choose|i: int|
            0 <= i < some && crate::text::same_ignoring_case(
                #[trigger] hosts[i].alias,
                trimmed(alias),
            );
        lemma_first_owner(hosts, alias, earlier)
    }
}

/// How many workers a request gets.
pub open spec fn workers(max_concurrency: Option<usize>) -> int {
    let wanted = match max_concurrency {
        Some(n) => n as int,
        None => DEFAULT_BATCH_CONCURRENCY as int,
    };
    if wanted < 1 {
        1
    } else if wanted > MAX_BATCH_CONCURRENCY {
        MAX_BATCH_CONCURRENCY as int
    } else {
        wanted
    }
}

pub fn concurrency(max_concurrency: Option<usize>) -> (r: usize)
    ensures
        r == workers(max_concurrency),
        1 <= r <= MAX_BATCH_CONCURRENCY,
{
    let wanted: usize = match max_concurrency {
        Some(n) => n,
        None => DEFAULT_BATCH_CONCURRENCY,
    };
    if wanted < 1 {
        1
    } else if wanted > MAX_BATCH_CONCURRENCY {
        MAX_BATCH_CONCURRENCY
    } else {
        wanted
    }
}

/// A host is found under its alias, whatever the case and the white space around it, unless the
/// alias is blank or too long, or the host is hidden; each of these is told apart.
pub proof fn aliases_find_their_host(hosts: Seq<ProfileModel>, alias: Seq<char>, at: int)
    requires
        0 <= at < hosts.len(),
        crate::text::same_ignoring_case(hosts[at].alias, trimmed(alias)),
        forall|i: int|
            0 <= i < at ==> !crate::text::same_ignoring_case(
                (#[trigger] hosts[i]).alias,
                trimmed(alias),
            ),
        trimmed(alias).len() > 0,
        utf8_len(alias) <= 256,
    ensures
        owner_of(hosts, alias) == at,
        lookup_fault(hosts, alias) is None <==> !hosts[at].advanced.codex_hidden,
        hosts[at].advanced.codex_hidden ==> lookup_fault(hosts, alias)->0.code == "HOST_HIDDEN"@,
{
    assert(alias_owner(hosts, trimmed(alias), at));
    lemma_owner(hosts, alias, at);
}

/// An alias that no host has finds none, and neither does one that is blank or too long.
pub proof fn unknown_aliases_find_nothing(hosts: Seq<ProfileModel>, alias: Seq<char>)
    ensures
        trimmed(alias).len() == 0 || utf8_len(alias) > 256 ==> lookup_fault(hosts, alias) is Some
            && lookup_fault(hosts, alias)->0.code == "ALIAS_INVALID"@,
        trimmed(alias).len() > 0 && utf8_len(alias) <= 256 && (forall|i: int|
            0 <= i < hosts.len() ==> !crate::text::same_ignoring_case(
                (#[trigger] hosts[i]).alias,
                trimmed(alias),
            )) ==> lookup_fault(hosts, alias) is Some && lookup_fault(hosts, alias)->0.code
            == "ALIAS_NOT_FOUND"@,
{
}

/// Input goes to one command on one host: it is refused for a row of commands and for a batch, and
/// where it is longer than a mebibyte; nothing else about a request is.
pub proof fn input_goes_to_one_command(
    alias: String,
    command: String,
    text: String,
    timeouts: Timeouts,
    commands: Vec<String>,
    max_concurrency: Option<usize>,
    aliases: Vec<String>,
    options: BatchOptions,
)
    ensures
        input_fault(
            ToolRequest::Exec { alias, command, stdin: Some(text), timeouts },
        ) is None <==> utf8_len(text@) <= 1024 * 1024,
        input_fault(ToolRequest::Exec { alias, command, stdin: None, timeouts }) is None,
        input_fault(
            ToolRequest::ExecMany { alias, commands, stdin: Some(text), max_concurrency, timeouts },
        ) is Some,
        input_fault(
            ToolRequest::ExecMany { alias, commands, stdin: None, max_concurrency, timeouts },
        ) is None,
        input_fault(
            ToolRequest::BatchExec { aliases, command, stdin: Some(text), options },
        ) is Some,
        input_fault(
            ToolRequest::BatchExec { aliases, command, stdin: None, options },
        ) is None,
        input_fault(ToolRequest::Probe { alias, timeouts }) is None,
{
}

/// A row of commands is accepted exactly where it has one to sixty-four, none of them empty.
pub proof fn rows_of_commands_are_bounded(commands: Seq<Seq<char>>)
    ensures
        commands_fault(commands) is None <==> 1 <= commands.len() <= 64 && forall|i: int|
            0 <= i < commands.len() ==> (#[trigger] commands[i]).len() > 0,
        commands.len() == 0 ==> commands_fault(commands)->0.code == "COMMANDS_REQUIRED"@,
        commands.len() > 64 ==> commands_fault(commands)->0.code == "TOO_MANY_COMMANDS"@,
{
}

/// A timeout is what was asked for, but never more than a day; what was not asked for is not
/// limited here.
pub proof fn timeouts_are_as_asked(timeouts: Timeouts, total: Option<u64>, asked: u64)
    ensures
        asked <= 86_400_000 ==> capped(asked) == asked,
        asked > 86_400_000 ==> capped(asked) == 86_400_000,
        limited(timeouts, total).total_timeout == total,
        timeouts.connect_timeout_ms == Some(asked) && asked <= 86_400_000 ==> limited(
            timeouts,
            total,
        ).connect_timeout == Some(asked),
        timeouts.command_timeout_ms == Some(asked) && asked <= 86_400_000 ==> limited(
            timeouts,
            total,
        ).command_timeout == Some(asked),
        timeouts.connect_timeout_ms is None ==> limited(timeouts, total).connect_timeout is None,
        timeouts.command_timeout_ms is None ==> limited(timeouts, total).command_timeout is None,
        limited(timeouts, total).output_bytes is None,
        !limited(timeouts, total).retain_sessions,
{
}

/// A batch that names usable hosts, each once, is accepted: up to two hundred and fifty-six, whose
/// profiles are in order.
pub proof fn sound_batches_are_accepted(hosts: Seq<ProfileModel>, aliases: Seq<Seq<char>>, i: int)
    requires
        1 <= aliases.len() <= 256,
        0 <= i < aliases.len(),
        lookup_fault(hosts, aliases[i]) is None,
        hosts[owner_of(hosts, aliases[i])].issue() is None,
        forall|j: int|
            0 <= j < i ==> ascii_lower(trimmed(#[trigger] aliases[j])) != ascii_lower(
                trimmed(aliases[i]),
            ),
    ensures
        batch_size_fault(aliases.len()) is None,
        batch_alias_fault(hosts, aliases, i) is None,
{
}

/// A batch is refused for an alias that stands in it twice, in whatever case, for one that finds
/// no host, and for a host whose profile is not in order.
pub proof fn unsound_batches_are_refused(
    hosts: Seq<ProfileModel>,
    aliases: Seq<Seq<char>>,
    i: int,
    j: int,
)
    requires
        0 <= i < aliases.len(),
    ensures
        0 <= j < i && ascii_lower(trimmed(aliases[j])) == ascii_lower(trimmed(aliases[i]))
            ==> batch_alias_fault(hosts, aliases, i) is Some,
        lookup_fault(hosts, aliases[i]) is Some ==> batch_alias_fault(hosts, aliases, i) is Some,
        lookup_fault(hosts, aliases[i]) is None && hosts[owner_of(hosts, aliases[i])].issue() is Some
            ==> batch_alias_fault(hosts, aliases, i) is Some,
        batch_size_fault(0) is Some && batch_size_fault(0)->0.code == "BATCH_ALIASES_REQUIRED"@,
        aliases.len() > 256 ==> batch_size_fault(aliases.len()) is Some && batch_size_fault(
            aliases.len(),
        )->0.code == "BATCH_TOO_LARGE"@,
{
    if 0 <= j < i && ascii_lower(trimmed(aliases[j])) == ascii_lower(trimmed(aliases[i])) {
        assert(alias_key(aliases[j]) == alias_key(aliases[i]));
        assert(repeated(aliases, i));
    }
}

/// The host of each alias of a batch is the one that the alias names.
pub proof fn batch_hosts_have_their_aliases(
    hosts: Seq<ProfileModel>,
    aliases: Seq<Seq<char>>,
    found: Seq<ProfileModel>,
    i: int,
)
    requires
        batch_resolves(hosts, aliases, found),
        0 <= i < aliases.len(),
    ensures
        crate::text::same_ignoring_case(found[i].alias, trimmed(aliases[i])),
        hosts.contains(found[i]),
        !found[i].advanced.codex_hidden,
{
    assert(batch_alias_fault(hosts, aliases, i) is None);
    lemma_owner_exists(hosts, aliases[i]);
    assert(found[i] == hosts[owner_of(hosts, aliases[i])]);
}

/// An alias is one that says something and is not longer than two hundred and fifty-six bytes; and
/// a failure that names its host keeps its code and its message.
pub proof fn aliases_are_bounded(alias: Seq<char>, code: Seq<char>, message: Seq<char>)
    ensures
        alias_ok(alias) <==> trimmed(alias).len() > 0 && utf8_len(alias) <= 256,
        failure_of(alias, code, message).host_alias == Some(alias),
        failure_of(alias, code, message).code == code,
        failure_of(alias, code, message).message == message,
        failure_of(alias, code, message).status == "error"@,
{
}

} // verus!

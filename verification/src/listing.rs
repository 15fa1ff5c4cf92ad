//! What tools are told of the stored hosts, and of keys and abilities.
use vstd::prelude::*;

use crate::execute::key_models;
use crate::failure::{failure, RemoteFailure};
use crate::fido::FidoKeyInfo;
use crate::id::Id;
use crate::json::{
    has_part, lemma_says_at, lemma_says_optional, lemma_says_within, list, lists_show_their_items,
    member, object, optional, pad, quoted, says, text_list, truth, write_text_list, Lines,
};
use crate::model::{
    carries_tag, find_id, has_tag, host_with_id, models, normalize_tags, normalized,
    normalizing_tags, shows, tag_hit, AuthPersistence, HostFilter, HostProfile, ProfileModel,
    Protocol, RemoteEnv, SshAuth,
};
use crate::pool::{
    holds_id, CONNECTION_IDLE_TIMEOUT, DEFAULT_RETAINED_CONNECTIONS, MAX_RETAINED_CONNECTIONS,
};
use crate::remote::AgentKeyInfo;
use crate::report::{agent_key_json, write_agent_key};
use crate::storage::HostStore;
use crate::text::{
    copy_optional, decimal, is_blank, lemma_empty_is_trimmed, lowercase_text, optional_text, texts,
    trimmed,
};
use crate::tool::{
    DEFAULT_BATCH_CONCURRENCY, MAX_BATCH_CONCURRENCY, MAX_BATCH_HOSTS, MAX_BATCH_OUTPUT_BYTES,
    MAX_EXEC_MANY_COMMANDS, MAX_TOOL_TIMEOUT_MS, SCHEMA_VERSION,
};

verus! {

/// A host as tools see it. Nothing in it is secret.
#[derive(Debug, PartialEq, Eq)]
pub struct HostSummary {
    pub alias: String,
    pub description: String,
    pub tags: Vec<String>,
    pub address: String,
    pub port: u16,
    pub username: String,
    pub protocol: &'static str,
    pub ssh_auth: Option<&'static str>,
    pub agent_key_fingerprint: Option<String>,
    pub jump_host: Option<String>,
    pub verified: bool,
    pub auth_persistence: AuthPersistence,
    pub max_channels: usize,
    pub remote_env: RemoteEnv,
    pub has_required_secret: bool,
    pub has_host_fingerprint: bool,
    pub host_key_algorithm: Option<String>,
}

#[verifier::ext_equal]
pub struct SummaryModel {
    pub alias: Seq<char>,
    pub description: Seq<char>,
    pub tags: Seq<Seq<char>>,
    pub address: Seq<char>,
    pub port: u16,
    pub username: Seq<char>,
    pub protocol: Seq<char>,
    pub ssh_auth: Option<Seq<char>>,
    pub agent_key_fingerprint: Option<Seq<char>>,
    pub jump_host: Option<Seq<char>>,
    pub verified: bool,
    pub auth_persistence: AuthPersistence,
    pub max_channels: usize,
    pub remote_env: RemoteEnv,
    pub has_required_secret: bool,
    pub has_host_fingerprint: bool,
    pub host_key_algorithm: Option<Seq<char>>,
}

/// A literal that may be absent, as characters.
pub open spec fn optional_literal(value: Option<&'static str>) -> Option<Seq<char>> {
    match value {
        Some(text) => Some(text@),
        None => None,
    }
}

impl View for HostSummary {
    type V = SummaryModel;

    open spec fn view(&self) -> SummaryModel {
        SummaryModel {
            alias: self.alias@,
            description: self.description@,
            tags: texts(self.tags@),
            address: self.address@,
            port: self.port,
            username: self.username@,
            protocol: self.protocol@,
            ssh_auth: optional_literal(self.ssh_auth),
            agent_key_fingerprint: optional_text(self.agent_key_fingerprint),
            jump_host: optional_text(self.jump_host),
            verified: self.verified,
            auth_persistence: self.auth_persistence,
            max_channels: self.max_channels,
            remote_env: self.remote_env,
            has_required_secret: self.has_required_secret,
            has_host_fingerprint: self.has_host_fingerprint,
            host_key_algorithm: optional_text(self.host_key_algorithm),
        }
    }
}

/// The host is reached with a stored password: keys and agents need none.
pub open spec fn needs_password(host: ProfileModel) -> bool {
    !(host.protocol == Protocol::Ssh && (host.ssh_auth == SshAuth::PrivateKey || host.ssh_auth
        == SshAuth::SshAgent))
}

fn password_needed(host: &HostProfile) -> (r: bool)
    ensures
        r == needs_password(host@),
{
    !(host.protocol == Protocol::Ssh && (host.ssh_auth == SshAuth::PrivateKey || host.ssh_auth
        == SshAuth::SshAgent))
}

/// The alias of the jump host, if the host has one that is stored.
pub open spec fn jump_alias(host: ProfileModel, hosts: Seq<ProfileModel>) -> Option<Seq<char>> {
    match host.jump_host {
        Some(id) => match host_with_id(hosts, id) {
            Some(jump) => Some(jump.alias),
            None => None,
        },
        None => None,
    }
}

/// The summary of a host among the stored ones; `stored` are the hosts that have a password.
pub open spec fn summary(
    host: ProfileModel,
    hosts: Seq<ProfileModel>,
    stored: Seq<Id>,
) -> SummaryModel {
    let ssh = host.protocol == Protocol::Ssh;
    SummaryModel {
        alias: host.alias,
        description: host.description,
        tags: normalized(host.tags),
        address: host.address,
        port: host.port,
        username: host.username,
        protocol: host.protocol.name(),
        ssh_auth: if ssh {
            Some(host.ssh_auth.name())
        } else {
            None
        },
        agent_key_fingerprint: if ssh && host.ssh_auth == SshAuth::SshAgent && trimmed(
            host.agent_key_fingerprint,
        ).len() > 0 {
            Some(host.agent_key_fingerprint)
        } else {
            None
        },
        jump_host: jump_alias(host, hosts),
        verified: host.verified,
        auth_persistence: host.persistence(),
        max_channels: match host.advanced.max_channels {
            Some(n) => n as usize,
            None => crate::model::DEFAULT_CHANNELS_PER_HOST as usize,
        },
        remote_env: host.advanced.remote_env,
        has_required_secret: !needs_password(host) || stored.contains(host.id),
        has_host_fingerprint: host.host_fingerprint is Some,
        host_key_algorithm: host.host_key_algorithm,
    }
}

pub fn find_jump_alias(host: &HostProfile, hosts: &[HostProfile]) -> (r: Option<String>)
    ensures
        optional_text(r) == jump_alias(host@, models(hosts@)),
{
    match host.jump_host {
        Some(id) => match find_id(hosts, id) {
            Some(at) => Some(hosts[at].alias.clone()),
            None => None,
        },
        None => None,
    }
}

fn summarize(host: &HostProfile, hosts: &Vec<HostProfile>, stored: &Vec<Id>) -> (r: HostSummary)
    ensures
        r@ == summary(host@, models(hosts@), stored@),
{
    let ssh = host.protocol == Protocol::Ssh;
    HostSummary {
        alias: host.alias.clone(),
        description: host.description.clone(),
        tags: normalize_tags(&host.tags),
        address: host.address.clone(),
        port: host.port,
        username: host.username.clone(),
        protocol: host.protocol.stable_name(),
        ssh_auth: if ssh {
            Some(host.ssh_auth.stable_name())
        } else {
            None
        },
        agent_key_fingerprint: if ssh && host.ssh_auth == SshAuth::SshAgent && !is_blank(
            host.agent_key_fingerprint.as_str(),
        ) {
            Some(host.agent_key_fingerprint.clone())
        } else {
            None
        },
        jump_host: find_jump_alias(host, hosts),
        verified: host.verified,
        auth_persistence: host.effective_auth_persistence(),
        max_channels: host.advanced.max_channels(),
        remote_env: host.advanced.remote_env,
        has_required_secret: !password_needed(host) || holds_id(stored, host.id),
        has_host_fingerprint: host.host_fingerprint.is_some(),
        host_key_algorithm: copy_optional(&host.host_key_algorithm),
    }
}

/// The host is listed: it is not hidden, and it has every tag that is asked for.
pub open spec fn is_listed(host: ProfileModel, tags: Seq<Seq<char>>) -> bool {
    !host.advanced.codex_hidden && shows(Seq::empty(), normalized(tags), host)
}

/// The listed hosts, in the order of the store.
pub open spec fn listed(hosts: Seq<ProfileModel>, tags: Seq<Seq<char>>) -> Seq<ProfileModel>
    decreases hosts.len(),
{
    if hosts.len() == 0 {
        Seq::empty()
    } else {
        let before = listed(hosts.drop_last(), tags);
        if is_listed(hosts.last(), tags) {
            before.push(hosts.last())
        } else {
            before
        }
    }
}

/// The listed hosts whose passwords have to be looked for, by their identity.
pub open spec fn lookups(hosts: Seq<ProfileModel>, tags: Seq<Seq<char>>) -> Seq<Id>
    decreases hosts.len(),
{
    if hosts.len() == 0 {
        Seq::empty()
    } else {
        let before = lookups(hosts.drop_last(), tags);
        if is_listed(hosts.last(), tags) && needs_password(hosts.last()) {
            before.push(hosts.last().id)
        } else {
            before
        }
    }
}

fn tag_filter(tags: &Vec<String>) -> (r: HostFilter)
    ensures
        r.search@ == Seq::<char>::empty(),
        texts(r.tags@) == normalized(texts(tags@)),
{
    HostFilter { search: String::new(), tags: normalize_tags(tags) }
}

/// The hosts whose passwords a listing has to look for. A host that is not listed is not looked
/// for.
pub fn secret_lookups(store: &HostStore, tags: &Vec<String>) -> (r: Vec<Id>)
    ensures
        r@ == lookups(store@.hosts, texts(tags@)),
{
    let filter = tag_filter(tags);
    let ghost hosts = store@.hosts;
    let mut out: Vec<Id> = Vec::new();
    let mut i: usize = 0;
    while i < store.hosts.len()
        invariant
            i <= store.hosts@.len(),
            hosts == store@.hosts,
            filter.search@ == Seq::<char>::empty(),
            texts(filter.tags@) == normalized(texts(tags@)),
            out@ == lookups(hosts.take(i as int), texts(tags@)),
        decreases store.hosts@.len() - i,
    {
        let host = &store.hosts[i];
        assert(hosts.take(i + 1).drop_last() =~= hosts.take(i as int));
        assert(hosts.take(i + 1).last() == host@);
        if !host.advanced.codex_hidden && filter.matches(host) && password_needed(host) {
            out.push(host.id);
        }
        i = i + 1;
    }
    assert(hosts.take(i as int) =~= hosts);
    out
}

/// A list of hosts for a tool.
#[derive(Debug, PartialEq, Eq)]
pub struct ListResult {
    pub schema_version: u32,
    pub status: &'static str,
    pub hosts: Vec<HostSummary>,
}

pub open spec fn summaries(list: Seq<HostSummary>) -> Seq<SummaryModel> {
    Seq::new(list.len(), |i: int| list[i]@)
}

/// The summaries of the listed hosts.
pub open spec fn listing(
    hosts: Seq<ProfileModel>,
    tags: Seq<Seq<char>>,
    stored: Seq<Id>,
) -> Seq<SummaryModel> {
    Seq::new(
        listed(hosts, tags).len(),
        |i: int| summary(listed(hosts, tags)[i], hosts, stored),
    )
}

/// The summary has the details of the host.
pub open spec fn tells_of(shown: HostSummary, host: HostProfile) -> bool {
    &&& shown.alias@ == host.alias@
    &&& shown.description@ == host.description@
    &&& shown.address@ == host.address@
    &&& shown.port == host.port
    &&& shown.username@ == host.username@
    &&& shown.verified == host.verified
    &&& shown.has_host_fingerprint == host.host_fingerprint is Some
    &&& shown.remote_env == host.advanced.remote_env
}

/// The summary has the details of one of the hosts.
pub open spec fn tells_of_one(shown: HostSummary, hosts: Seq<HostProfile>) -> bool {
    exists|i: int| 0 <= i < hosts.len() && #[trigger] tells_of(shown, hosts[i])
}

/// Lists the hosts that have the tags; `stored` are the hosts for which a password was found.
pub fn list_hosts(store: &HostStore, tags: &Vec<String>, stored: &Vec<Id>) -> (r: ListResult)
    ensures
        r.schema_version == SCHEMA_VERSION,
        r.status@ == "ok"@,
        summaries(r.hosts@) == listing(store@.hosts, texts(tags@), stored@),
        forall|k: int|
            0 <= k < r.hosts@.len() ==> tells_of_one(#[trigger] r.hosts@[k], store.hosts@),
{
    let filter = tag_filter(tags);
    let ghost hosts = store@.hosts;
    let ghost wanted = texts(tags@);
    let mut out: Vec<HostSummary> = Vec::new();
    let mut i: usize = 0;
    while i < store.hosts.len()
        invariant
            i <= store.hosts@.len(),
            hosts == store@.hosts,
            wanted == texts(tags@),
            filter.search@ == Seq::<char>::empty(),
            texts(filter.tags@) == normalized(wanted),
            out@.len() == listed(hosts.take(i as int), wanted).len(),
            forall|j: int|
                0 <= j < out@.len() ==> (#[trigger] out@[j])@ == summary(
                    listed(hosts.take(i as int), wanted)[j],
                    hosts,
                    stored@,
                ),
        decreases store.hosts@.len() - i,
    {
        let host = &store.hosts[i];
        assert(hosts.take(i + 1).drop_last() =~= hosts.take(i as int));
        assert(hosts.take(i + 1).last() == host@);
        if !host.advanced.codex_hidden && filter.matches(host) {
            out.push(summarize(host, &store.hosts, stored));
        }
        i = i + 1;
    }
    assert(hosts.take(i as int) =~= hosts);
    assert(summaries(out@) =~= listing(hosts, wanted, stored@));
    proof {
        assert forall|k: int| 0 <= k < out@.len() implies tells_of_one(
            #[trigger] out@[k],
            store.hosts@,
        ) by {
            hidden_hosts_are_not_listed(hosts, wanted, k);
            let host = listed(hosts, wanted)[k];
            let i = choose|i: int| 0 <= i < hosts.len() && hosts[i] == host;
            assert(out@[k]@ == summary(host, hosts, stored@));
            assert(store.hosts@[i]@ == host);
            assert(tells_of(out@[k], store.hosts@[i]));
        }
    }
    ListResult { schema_version: SCHEMA_VERSION, status: "ok", hosts: out }
}

/// The answer when the credential store cannot be read.
pub fn credential_read_failed(reason: &str) -> (r: RemoteFailure)
    ensures
        r@ == failure("CREDENTIAL_READ_FAILED"@, reason@),
{
    RemoteFailure::new("CREDENTIAL_READ_FAILED", reason)
}

/// Whatever is listed is not hidden, stands in the store and has the tags.
pub proof fn hidden_hosts_are_not_listed(hosts: Seq<ProfileModel>, tags: Seq<Seq<char>>, i: int)
    requires
        0 <= i < listed(hosts, tags).len(),
    ensures
        is_listed(listed(hosts, tags)[i], tags),
        hosts.contains(listed(hosts, tags)[i]),
        !listed(hosts, tags)[i].advanced.codex_hidden,
    decreases hosts.len(),
{
    let before = listed(hosts.drop_last(), tags);
    if i < before.len() {
        hidden_hosts_are_not_listed(hosts.drop_last(), tags, i);
        let host = before[i];
        let k = choose|k: int| 0 <= k < hosts.len() - 1 && hosts.drop_last()[k] == host;
        assert(hosts[k] == host);
    } else {
        assert(hosts[hosts.len() - 1] == hosts.last());
    }
}

/// A host of the store is listed exactly when it is not hidden and has the tags; where no tags are
/// asked for, every host is that is not hidden.
pub proof fn tags_choose_what_is_listed(hosts: Seq<ProfileModel>, tags: Seq<Seq<char>>, i: int)
    requires
        0 <= i < hosts.len(),
    ensures
        listed(hosts, tags).contains(hosts[i]) == is_listed(hosts[i], tags),
        tags.len() == 0 ==> is_listed(hosts[i], tags) == !hosts[i].advanced.codex_hidden,
    decreases hosts.len(),
{
    let host = hosts[i];
    let list = listed(hosts, tags);
    let before = listed(hosts.drop_last(), tags);
    if list.contains(host) {
        let k = choose|k: int| 0 <= k < list.len() && list[k] == host;
        hidden_hosts_are_not_listed(hosts, tags, k);
    }
    if is_listed(host, tags) {
        if i < hosts.len() - 1 {
            tags_choose_what_is_listed(hosts.drop_last(), tags, i);
            let k = choose|k: int| 0 <= k < before.len() && before[k] == host;
            assert(list[k] == host);
        } else {
            assert(list[before.len() as int] == host);
        }
    }
    if tags.len() == 0 {
        lemma_empty_is_trimmed();
    }
}

/// A tag that no host carries matches none.
pub proof fn unknown_tags_match_nothing(hosts: Seq<ProfileModel>, tags: Seq<Seq<char>>, t: int)
    requires
        0 <= t < tags.len(),
        trimmed(tags[t]).len() > 0,
        forall|i: int| 0 <= i < hosts.len() ==> !carries_tag(#[trigger] hosts[i], tags[t]),
    ensures
        listed(hosts, tags).len() == 0,
{
    let list = listed(hosts, tags);
    if list.len() > 0 {
        hidden_hosts_are_not_listed(hosts, tags, 0);
        let host = list[0];
        normalizing_tags(tags);
        let wanted = normalized(tags);
        assert(has_tag(wanted, trimmed(tags[t])));
        let k = choose|k: int|
            0 <= k < wanted.len() && lowercase_text(#[trigger] wanted[k]) == lowercase_text(
                trimmed(tags[t]),
            );
        assert(tag_hit(host, wanted[k]));
        assert(carries_tag(host, tags[t]));
    }
}

/// Passwords are looked for only of hosts that are listed and need one.
pub proof fn other_credentials_are_not_touched(hosts: Seq<ProfileModel>, tags: Seq<Seq<char>>, i: int)
    requires
        0 <= i < lookups(hosts, tags).len(),
    ensures
        exists|k: int|
            0 <= k < hosts.len() && (#[trigger] hosts[k]).id == lookups(hosts, tags)[i]
                && is_listed(hosts[k], tags) && needs_password(hosts[k]),
    decreases hosts.len(),
{
    let before = lookups(hosts.drop_last(), tags);
    if i < before.len() {
        other_credentials_are_not_touched(hosts.drop_last(), tags, i);
        let short = hosts.drop_last();
        let k = choose|k: int|
            0 <= k < short.len() && (#[trigger] short[k]).id == lookups(short, tags)[i]
                && is_listed(short[k], tags) && needs_password(short[k]);
        assert(hosts[k] == short[k]);
    } else {
        assert(hosts[hosts.len() - 1] == hosts.last());
    }
}

/// How long sessions are kept, with its tag.
pub open spec fn persistence_json(level: nat, value: AuthPersistence) -> Seq<char> {
    object(
        level,
        match value {
            AuthPersistence::PerCall => seq![member(level, "mode"@, quoted("per_call"@))],
            AuthPersistence::Session => seq![member(level, "mode"@, quoted("session"@))],
            AuthPersistence::Idle { minutes } => seq![
                member(level, "mode"@, quoted("idle"@)),
                member(level, "minutes"@, decimal(minutes as nat)),
            ],
        },
    )
}

pub fn write_persistence(level: usize, value: AuthPersistence) -> (r: String)
    requires
        level < 900,
    ensures
        r@ == persistence_json(level as nat, value),
{
    let mut lines = Lines::new(level);
    let ghost l = level as nat;
    match value {
        AuthPersistence::PerCall => {
            lines.put_text("mode", "per_call");
            assert(lines@ =~= seq![member(l, "mode"@, quoted("per_call"@))]);
        },
        AuthPersistence::Session => {
            lines.put_text("mode", "session");
            assert(lines@ =~= seq![member(l, "mode"@, quoted("session"@))]);
        },
        AuthPersistence::Idle { minutes } => {
            lines.put_text("mode", "idle");
            lines.put_number("minutes", minutes as u64);
            assert(lines@ =~= seq![
                member(l, "mode"@, quoted("idle"@)),
                member(l, "minutes"@, decimal(minutes as nat)),
            ]);
        },
    }
    lines.into_object()
}

pub open spec fn env_name(value: RemoteEnv) -> Seq<char> {
    match value {
        RemoteEnv::Auto => "auto"@,
        RemoteEnv::Posix => "posix"@,
        RemoteEnv::Windows => "windows"@,
    }
}

pub fn env_text(value: RemoteEnv) -> (r: &'static str)
    ensures
        r@ == env_name(value),
{
    match value {
        RemoteEnv::Auto => "auto",
        RemoteEnv::Posix => "posix",
        RemoteEnv::Windows => "windows",
    }
}

/// Who a host is.
pub open spec fn identity_members(level: nat, host: SummaryModel) -> Seq<Seq<char>> {
    seq![
        member(level, "alias"@, quoted(host.alias)),
        member(level, "description"@, quoted(host.description)),
        member(level, "tags"@, text_list(level + 1, host.tags)),
        member(level, "address"@, quoted(host.address)),
        member(level, "port"@, decimal(host.port as nat)),
        member(level, "username"@, quoted(host.username)),
        member(level, "protocol"@, quoted(host.protocol)),
    ]
}

/// How a host is logged into.
pub open spec fn login_members(level: nat, host: SummaryModel) -> Seq<Seq<char>> {
    optional(level, "ssh_auth"@, host.ssh_auth) + optional(
        level,
        "agent_key_fingerprint"@,
        host.agent_key_fingerprint,
    ) + optional(level, "jump_host"@, host.jump_host)
}

/// What state a host is in.
pub open spec fn state_members(level: nat, host: SummaryModel) -> Seq<Seq<char>> {
    seq![
        member(level, "verified"@, truth(host.verified)),
        member(level, "auth_persistence"@, persistence_json(level + 1, host.auth_persistence)),
        member(level, "max_channels"@, decimal(host.max_channels as nat)),
        member(level, "remote_env"@, quoted(env_name(host.remote_env))),
        member(level, "has_required_secret"@, truth(host.has_required_secret)),
        member(level, "has_host_fingerprint"@, truth(host.has_host_fingerprint)),
    ]
}

pub open spec fn summary_json(level: nat, host: SummaryModel) -> Seq<char> {
    object(
        level,
        identity_members(level, host) + login_members(level, host) + state_members(level, host)
            + optional(level, "host_key_algorithm"@, host.host_key_algorithm),
    )
}

fn put_identity(lines: &mut Lines, host: &HostSummary)
    requires
        old(lines).inv(),
        old(lines).level < 800,
    ensures
        final(lines).inv(),
        final(lines).level == old(lines).level,
        final(lines)@ == old(lines)@ + identity_members(old(lines).level as nat, host@),
{
    let level: usize = lines.level;
    lines.put_text("alias", host.alias.as_str());
    lines.put_text("description", host.description.as_str());
    lines.put("tags", write_text_list(level + 1, &host.tags).as_str());
    lines.put_text("address", host.address.as_str());
    lines.put_number("port", host.port as u64);
    lines.put_text("username", host.username.as_str());
    lines.put_text("protocol", host.protocol);
    assert(lines@ =~= old(lines)@ + identity_members(level as nat, host@));
}

fn put_login(lines: &mut Lines, host: &HostSummary)
    requires
        old(lines).inv(),
    ensures
        final(lines).inv(),
        final(lines).level == old(lines).level,
        final(lines)@ == old(lines)@ + login_members(old(lines).level as nat, host@),
{
    let ghost l = lines.level as nat;
    if let Some(auth) = host.ssh_auth {
        lines.put_text("ssh_auth", auth);
    }
    assert(lines@ =~= old(lines)@ + optional(l, "ssh_auth"@, host@.ssh_auth));
    lines.put_optional("agent_key_fingerprint", &host.agent_key_fingerprint);
    lines.put_optional("jump_host", &host.jump_host);
    assert(lines@ =~= old(lines)@ + login_members(l, host@));
}

fn put_state(lines: &mut Lines, host: &HostSummary)
    requires
        old(lines).inv(),
        old(lines).level < 800,
    ensures
        final(lines).inv(),
        final(lines).level == old(lines).level,
        final(lines)@ == old(lines)@ + state_members(old(lines).level as nat, host@),
{
    let level: usize = lines.level;
    lines.put_truth("verified", host.verified);
    lines.put("auth_persistence", write_persistence(level + 1, host.auth_persistence).as_str());
    lines.put_number("max_channels", host.max_channels as u64);
    lines.put_text("remote_env", env_text(host.remote_env));
    lines.put_truth("has_required_secret", host.has_required_secret);
    lines.put_truth("has_host_fingerprint", host.has_host_fingerprint);
    assert(lines@ =~= old(lines)@ + state_members(level as nat, host@));
}

pub fn write_summary(level: usize, host: &HostSummary) -> (r: String)
    requires
        level < 800,
    ensures
        r@ == summary_json(level as nat, host@),
{
    let mut lines = Lines::new(level);
    put_identity(&mut lines, host);
    assert(lines@ =~= identity_members(level as nat, host@));
    put_login(&mut lines, host);
    put_state(&mut lines, host);
    lines.put_optional("host_key_algorithm", &host.host_key_algorithm);
    lines.into_object()
}

/// A list result as it is written.
pub open spec fn list_json(hosts: Seq<SummaryModel>) -> Seq<char> {
    object(
        0,
        seq![
            member(0, "schema_version"@, decimal(SCHEMA_VERSION as nat)),
            member(0, "status"@, quoted("ok"@)),
            member(
                0,
                "hosts"@,
                list(1, Seq::new(hosts.len(), |i: int| summary_json(2, hosts[i]))),
            ),
        ],
    )
}

impl ListResult {
    pub fn json(&self) -> (r: String)
        requires
            self.schema_version == SCHEMA_VERSION,
            self.status@ == "ok"@,
        ensures
            r@ == list_json(summaries(self.hosts@)),
    {
        let ghost models = summaries(self.hosts@);
        let ghost items = Seq::new(models.len(), |i: int| summary_json(2, models[i]));
        let ghost whole = Seq::new(items.len(), |i: int| pad(2) + items[i]);
        let mut inner = Lines::new(1);
        let mut i: usize = 0;
        while i < self.hosts.len()
            invariant
                i <= self.hosts@.len(),
                inner.inv(),
                inner.level == 1,
                models == summaries(self.hosts@),
                items == Seq::new(models.len(), |i: int| summary_json(2, models[i])),
                whole == Seq::new(items.len(), |i: int| pad(2) + items[i]),
                inner@ == whole.take(i as int),
            decreases self.hosts@.len() - i,
        {
            let item = write_summary(2, &self.hosts[i]);
            assert(item@ == items[i as int]);
            inner.item(item.as_str());
            assert(inner@ =~= whole.take(i + 1));
            i = i + 1;
        }
        assert(whole.take(i as int) =~= whole);
        let value = inner.into_list();
        assert(value@ == list(1, items)) by {
            assert(Seq::new(items.len(), |i: int| pad(1 + 1) + items[i]) =~= whole);
        }
        let mut lines = Lines::new(0);
        lines.put_number("schema_version", self.schema_version as u64);
        lines.put_text("status", self.status);
        lines.put("hosts", value.as_str());
        assert(lines@ =~= seq![
            member(0, "schema_version"@, decimal(SCHEMA_VERSION as nat)),
            member(0, "status"@, quoted("ok"@)),
            member(0, "hosts"@, list(1, items)),
        ]);
        lines.into_object()
    }
}

/// The identities of an agent, for a tool.
pub struct AgentIdentitiesResult {
    pub schema_version: u32,
    pub status: &'static str,
    pub identities: Vec<AgentKeyInfo>,
}

pub open spec fn agent_identities_json(keys: Seq<crate::remote::AgentKeyModel>) -> Seq<char> {
    object(
        0,
        seq![
            member(0, "schema_version"@, decimal(SCHEMA_VERSION as nat)),
            member(0, "status"@, quoted("ok"@)),
            member(
                0,
                "identities"@,
                list(1, Seq::new(keys.len(), |i: int| agent_key_json(2, keys[i]))),
            ),
        ],
    )
}

impl AgentIdentitiesResult {
    pub fn new(identities: Vec<AgentKeyInfo>) -> (r: Self)
        ensures
            r.schema_version == SCHEMA_VERSION,
            r.status@ == "ok"@,
            r.identities == identities,
    {
        AgentIdentitiesResult { schema_version: SCHEMA_VERSION, status: "ok", identities }
    }

    pub fn json(&self) -> (r: String)
        requires
            self.schema_version == SCHEMA_VERSION,
            self.status@ == "ok"@,
        ensures
            r@ == agent_identities_json(key_models(self.identities@)),
    {
        let ghost models = key_models(self.identities@);
        let ghost items = Seq::new(models.len(), |i: int| agent_key_json(2, models[i]));
        let ghost whole = Seq::new(items.len(), |i: int| pad(2) + items[i]);
        let mut inner = Lines::new(1);
        let mut i: usize = 0;
        while i < self.identities.len()
            invariant
                i <= self.identities@.len(),
                inner.inv(),
                inner.level == 1,
                models == key_models(self.identities@),
                items == Seq::new(models.len(), |i: int| agent_key_json(2, models[i])),
                whole == Seq::new(items.len(), |i: int| pad(2) + items[i]),
                inner@ == whole.take(i as int),
            decreases self.identities@.len() - i,
        {
            let item = write_agent_key(2, &self.identities[i]);
            assert(item@ == items[i as int]);
            inner.item(item.as_str());
            assert(inner@ =~= whole.take(i + 1));
            i = i + 1;
        }
        assert(whole.take(i as int) =~= whole);
        let value = inner.into_list();
        assert(value@ == list(1, items)) by {
            assert(Seq::new(items.len(), |i: int| pad(1 + 1) + items[i]) =~= whole);
        }
        let mut lines = Lines::new(0);
        lines.put_number("schema_version", self.schema_version as u64);
        lines.put_text("status", self.status);
        lines.put("identities", value.as_str());
        assert(lines@ =~= seq![
            member(0, "schema_version"@, decimal(SCHEMA_VERSION as nat)),
            member(0, "status"@, quoted("ok"@)),
            member(0, "identities"@, list(1, items)),
        ]);
        lines.into_object()
    }
}

/// The hardware keys whose handles were found, for a tool.
pub struct FidoIdentitiesResult {
    pub schema_version: u32,
    pub status: &'static str,
    pub helper_available: bool,
    pub identities: Vec<FidoKeyInfo>,
}

pub open spec fn fido_key_json(level: nat, key: FidoKeyInfo) -> Seq<char> {
    object(
        level,
        seq![
            member(level, "path"@, quoted(key.path@)),
            member(level, "fingerprint"@, quoted(key.fingerprint@)),
            member(level, "algorithm"@, quoted(key.algorithm@)),
            member(level, "public_key"@, quoted(key.public_key@)),
        ],
    )
}

pub fn write_fido_key(level: usize, key: &FidoKeyInfo) -> (r: String)
    requires
        level < 900,
    ensures
        r@ == fido_key_json(level as nat, *key),
{
    let ghost l = level as nat;
    let mut lines = Lines::new(level);
    lines.put_text("path", key.path.as_str());
    lines.put_text("fingerprint", key.fingerprint.as_str());
    lines.put_text("algorithm", key.algorithm.as_str());
    lines.put_text("public_key", key.public_key.as_str());
    assert(lines@ =~= seq![
        member(l, "path"@, quoted(key.path@)),
        member(l, "fingerprint"@, quoted(key.fingerprint@)),
        member(l, "algorithm"@, quoted(key.algorithm@)),
        member(l, "public_key"@, quoted(key.public_key@)),
    ]);
    lines.into_object()
}

pub open spec fn fido_identities_json(helper_available: bool, keys: Seq<FidoKeyInfo>) -> Seq<char> {
    object(
        0,
        seq![
            member(0, "schema_version"@, decimal(SCHEMA_VERSION as nat)),
            member(0, "status"@, quoted("ok"@)),
            member(0, "helper_available"@, truth(helper_available)),
            member(
                0,
                "identities"@,
                list(1, Seq::new(keys.len(), |i: int| fido_key_json(2, keys[i]))),
            ),
        ],
    )
}

impl FidoIdentitiesResult {
    pub fn new(helper_available: bool, identities: Vec<FidoKeyInfo>) -> (r: Self)
        ensures
            r.schema_version == SCHEMA_VERSION,
            r.status@ == "ok"@,
            r.helper_available == helper_available,
            r.identities == identities,
    {
        FidoIdentitiesResult {
            schema_version: SCHEMA_VERSION,
            status: "ok",
            helper_available,
            identities,
        }
    }

    pub fn json(&self) -> (r: String)
        requires
            self.schema_version == SCHEMA_VERSION,
            self.status@ == "ok"@,
        ensures
            r@ == fido_identities_json(self.helper_available, self.identities@),
    {
        let ghost models = self.identities@;
        let ghost items = Seq::new(models.len(), |i: int| fido_key_json(2, models[i]));
        let ghost whole = Seq::new(items.len(), |i: int| pad(2) + items[i]);
        let mut inner = Lines::new(1);
        let mut i: usize = 0;
        while i < self.identities.len()
            invariant
                i <= self.identities@.len(),
                inner.inv(),
                inner.level == 1,
                models == self.identities@,
                items == Seq::new(models.len(), |i: int| fido_key_json(2, models[i])),
                whole == Seq::new(items.len(), |i: int| pad(2) + items[i]),
                inner@ == whole.take(i as int),
            decreases self.identities@.len() - i,
        {
            let item = write_fido_key(2, &self.identities[i]);
            assert(item@ == items[i as int]);
            inner.item(item.as_str());
            assert(inner@ =~= whole.take(i + 1));
            i = i + 1;
        }
        assert(whole.take(i as int) =~= whole);
        let value = inner.into_list();
        assert(value@ == list(1, items)) by {
            assert(Seq::new(items.len(), |i: int| pad(1 + 1) + items[i]) =~= whole);
        }
        let mut lines = Lines::new(0);
        lines.put_number("schema_version", self.schema_version as u64);
        lines.put_text("status", self.status);
        lines.put_truth("helper_available", self.helper_available);
        lines.put("identities", value.as_str());
        assert(lines@ =~= seq![
            member(0, "schema_version"@, decimal(SCHEMA_VERSION as nat)),
            member(0, "status"@, quoted("ok"@)),
            member(0, "helper_available"@, truth(self.helper_available)),
            member(0, "identities"@, list(1, items)),
        ]);
        lines.into_object()
    }
}

/// The actions of the tool.
pub open spec fn action_names() -> Seq<Seq<char>> {
    seq![
        "temporary_secrets_open"@,
        "temporary_secrets"@,
        "agent_identities"@,
        "fido_identities"@,
        "list_hosts"@,
        "probe"@,
        "exec"@,
        "exec_many"@,
        "batch_probe"@,
        "batch_exec"@,
    ]
}

fn actions() -> (r: Vec<String>)
    ensures
        texts(r@) == action_names(),
{
    let mut out: Vec<String> = Vec::new();
    out.push("temporary_secrets_open".to_owned());
    out.push("temporary_secrets".to_owned());
    out.push("agent_identities".to_owned());
    out.push("fido_identities".to_owned());
    out.push("list_hosts".to_owned());
    out.push("probe".to_owned());
    out.push("exec".to_owned());
    out.push("exec_many".to_owned());
    out.push("batch_probe".to_owned());
    out.push("batch_exec".to_owned());
    assert(texts(out@) =~= action_names());
    out
}

/// What can be asked for.
pub open spec fn ability_members(version: Seq<char>) -> Seq<Seq<char>> {
    seq![
        member(0, "host_metadata_fields"@, text_list(1, seq!["description"@, "tags"@])),
        member(0, "list_hosts_tag_filter"@, truth(true)),
        member(0, "exec_stdin"@, truth(true)),
        member(0, "exec_stdin_protocols"@, text_list(1, seq!["ssh"@])),
        member(0, "max_stdin_bytes"@, decimal(crate::remote::MAX_STDIN_BYTES as nat)),
        member(0, "schema_version"@, decimal(SCHEMA_VERSION as nat)),
        member(0, "status"@, quoted("ok"@)),
        member(0, "app_version"@, quoted(version)),
        member(0, "actions"@, text_list(1, action_names())),
        member(
            0,
            "ssh_auth"@,
            text_list(1, seq!["password"@, "private_key"@, "ssh_agent"@]),
        ),
    ]
}

/// Within which bounds.
pub open spec fn bound_members() -> Seq<Seq<char>> {
    seq![
        member(0, "max_batch_concurrency"@, decimal(MAX_BATCH_CONCURRENCY as nat)),
        member(0, "max_batch_hosts"@, decimal(MAX_BATCH_HOSTS as nat)),
        member(0, "max_batch_output_bytes"@, decimal(MAX_BATCH_OUTPUT_BYTES as nat)),
        member(0, "max_timeout_ms"@, decimal(MAX_TOOL_TIMEOUT_MS as nat)),
        member(0, "default_batch_concurrency"@, decimal(DEFAULT_BATCH_CONCURRENCY as nat)),
        member(0, "default_retained_connections"@, decimal(DEFAULT_RETAINED_CONNECTIONS as nat)),
        member(0, "max_retained_connections"@, decimal(MAX_RETAINED_CONNECTIONS as nat)),
        member(0, "connection_idle_timeout_ms"@, decimal(CONNECTION_IDLE_TIMEOUT as nat)),
        member(0, "max_exec_many_commands"@, decimal(MAX_EXEC_MANY_COMMANDS as nat)),
        member(0, "host_key_hash"@, quoted("sha256"@)),
        member(0, "agent_forwarding"@, truth(false)),
    ]
}

fn put_abilities(lines: &mut Lines, version: &str)
    requires
        old(lines).inv(),
        old(lines).level == 0,
    ensures
        final(lines).inv(),
        final(lines).level == 0,
        final(lines)@ == old(lines)@ + ability_members(version@),
{
    let mut metadata: Vec<String> = Vec::new();
    metadata.push("description".to_owned());
    metadata.push("tags".to_owned());
    assert(texts(metadata@) =~= seq!["description"@, "tags"@]);
    let mut protocols: Vec<String> = Vec::new();
    protocols.push("ssh".to_owned());
    assert(texts(protocols@) =~= seq!["ssh"@]);
    let mut auths: Vec<String> = Vec::new();
    auths.push("password".to_owned());
    auths.push("private_key".to_owned());
    auths.push("ssh_agent".to_owned());
    assert(texts(auths@) =~= seq!["password"@, "private_key"@, "ssh_agent"@]);
    lines.put("host_metadata_fields", write_text_list(1, &metadata).as_str());
    lines.put_truth("list_hosts_tag_filter", true);
    lines.put_truth("exec_stdin", true);
    lines.put("exec_stdin_protocols", write_text_list(1, &protocols).as_str());
    lines.put_number("max_stdin_bytes", crate::remote::MAX_STDIN_BYTES as u64);
    lines.put_number("schema_version", SCHEMA_VERSION as u64);
    lines.put_text("status", "ok");
    lines.put_text("app_version", version);
    lines.put("actions", write_text_list(1, &actions()).as_str());
    lines.put("ssh_auth", write_text_list(1, &auths).as_str());
    assert(lines@ =~= old(lines)@ + ability_members(version@));
}

fn put_bounds(lines: &mut Lines)
    requires
        old(lines).inv(),
        old(lines).level == 0,
    ensures
        final(lines).inv(),
        final(lines).level == 0,
        final(lines)@ == old(lines)@ + bound_members(),
{
    lines.put_number("max_batch_concurrency", MAX_BATCH_CONCURRENCY as u64);
    lines.put_number("max_batch_hosts", MAX_BATCH_HOSTS as u64);
    lines.put_number("max_batch_output_bytes", MAX_BATCH_OUTPUT_BYTES as u64);
    lines.put_number("max_timeout_ms", MAX_TOOL_TIMEOUT_MS);
    lines.put_number("default_batch_concurrency", DEFAULT_BATCH_CONCURRENCY as u64);
    lines.put_number("default_retained_connections", DEFAULT_RETAINED_CONNECTIONS as u64);
    lines.put_number("max_retained_connections", MAX_RETAINED_CONNECTIONS as u64);
    lines.put_number("connection_idle_timeout_ms", CONNECTION_IDLE_TIMEOUT);
    lines.put_number("max_exec_many_commands", MAX_EXEC_MANY_COMMANDS as u64);
    lines.put_text("host_key_hash", "sha256");
    lines.put_truth("agent_forwarding", false);
    assert(lines@ =~= old(lines)@ + bound_members());
}

/// What the tool can do, and within which bounds.
pub fn capabilities_json(version: &str) -> (r: String)
    ensures
        r@ == object(0, ability_members(version@) + bound_members()),
{
    let mut lines = Lines::new(0);
    put_abilities(&mut lines, version);
    put_bounds(&mut lines);
    assert(lines@ =~= ability_members(version@) + bound_members());
    lines.into_object()
}

/// A summary tells of its host what is stored of it, field by field: alias, notes, address, port,
/// user name, whether it was verified, and the rest that is no secret.
pub proof fn summaries_tell_what_is_stored(
    host: HostProfile,
    hosts: Seq<ProfileModel>,
    stored: Seq<Id>,
    shown: HostSummary,
)
    requires
        shown@ == summary(host@, hosts, stored),
    ensures
        shown.alias@ == host.alias@,
        shown.description@ == host.description@,
        shown.address@ == host.address@,
        shown.port == host.port,
        shown.username@ == host.username@,
        shown.verified == host.verified,
        shown.tags@.len() <= host.tags@.len(),
        host.protocol == Protocol::Ssh ==> shown.protocol@ == "ssh"@,
        host.protocol == Protocol::Telnet ==> shown.protocol@ == "telnet"@ && shown.ssh_auth is None
            && shown.auth_persistence == AuthPersistence::PerCall,
        host.protocol == Protocol::Ssh ==> shown.ssh_auth is Some && shown.auth_persistence
            == host.auth_persistence,
        host.protocol == Protocol::Ssh && host.ssh_auth == SshAuth::Password
            ==> shown.ssh_auth->0@ == "password"@,
        host.protocol == Protocol::Ssh && host.ssh_auth == SshAuth::PrivateKey
            ==> shown.ssh_auth->0@ == "private_key"@,
        host.protocol == Protocol::Ssh && host.ssh_auth == SshAuth::SshAgent
            ==> shown.ssh_auth->0@ == "ssh_agent"@,
        shown.has_host_fingerprint == host.host_fingerprint is Some,
        shown.host_key_algorithm is Some == host.host_key_algorithm is Some,
        host.host_key_algorithm is Some ==> shown.host_key_algorithm->0@
            == host.host_key_algorithm->0@,
        shown.remote_env == host.advanced.remote_env,
        host.advanced.max_channels matches Some(n) ==> shown.max_channels == n,
        host.advanced.max_channels is None ==> shown.max_channels == 8,
{
    assert(shown@.alias == shown.alias@ && shown@.description == shown.description@);
    assert(shown@.address == shown.address@ && shown@.username == shown.username@);
    assert(shown@.protocol == shown.protocol@);
    assert(shown@.ssh_auth == optional_literal(shown.ssh_auth));
    assert(shown@.tags.len() == shown.tags@.len());
    lemma_normalized_is_no_longer(host@.tags);
}

proof fn lemma_normalized_is_no_longer(tags: Seq<Seq<char>>)
    ensures
        normalized(tags).len() <= tags.len(),
    decreases tags.len(),
{
    if tags.len() > 0 {
        lemma_normalized_is_no_longer(tags.drop_last());
    }
}

/// The tags of a summary are those of the host in their normal form, and its jump host is named by
/// the alias of the host that has that identity.
pub proof fn summaries_name_tags_and_jump_hosts(
    host: ProfileModel,
    hosts: Seq<ProfileModel>,
    stored: Seq<Id>,
    jump: ProfileModel,
)
    ensures
        crate::model::is_normal(host.tags) ==> summary(host, hosts, stored).tags == host.tags,
        host.jump_host is None ==> summary(host, hosts, stored).jump_host is None,
        host.jump_host == Some(jump.id) && host_with_id(hosts, jump.id) == Some(jump) ==> summary(
            host,
            hosts,
            stored,
        ).jump_host == Some(jump.alias),
        summary(host, hosts, stored).jump_host matches Some(alias) ==> exists|i: int|
            0 <= i < hosts.len() && (#[trigger] hosts[i]).alias == alias && Some(hosts[i].id)
                == host.jump_host,
{
    normalizing_tags(host.tags);
    if host.jump_host is Some {
        let id = host.jump_host->0;
        crate::model::hosts_are_found_by_identity(hosts, id);
        if host_with_id(hosts, id) is Some {
            let found = host_with_id(hosts, id)->0;
            let i = choose|i: int| 0 <= i < hosts.len() && hosts[i] == found;
            assert(hosts[i].alias == found.alias);
        }
    }
}

/// A host that logs in with a password has what it needs exactly where one is stored for it; a key
/// or an agent needs none.
pub proof fn passwords_are_asked_for_where_they_are_used(
    host: ProfileModel,
    hosts: Seq<ProfileModel>,
    stored: Seq<Id>,
)
    ensures
        host.protocol == Protocol::Telnet || host.ssh_auth == SshAuth::Password ==> summary(
            host,
            hosts,
            stored,
        ).has_required_secret == stored.contains(host.id),
        host.protocol == Protocol::Ssh && host.ssh_auth != SshAuth::Password ==> summary(
            host,
            hosts,
            stored,
        ).has_required_secret,
{
}

/// The listing keeps the order of the store: what it lists of a longer store is what it lists of
/// the shorter one, and the next host where that is listed.
pub proof fn listings_keep_the_order(
    hosts: Seq<ProfileModel>,
    host: ProfileModel,
    tags: Seq<Seq<char>>,
)
    ensures
        listed(hosts.push(host), tags) == if !host.advanced.codex_hidden && is_listed(host, tags) {
            listed(hosts, tags).push(host)
        } else {
            listed(hosts, tags)
        },
        listed(Seq::empty(), tags).len() == 0,
{
    assert(hosts.push(host).drop_last() =~= hosts);
}

/// A host is listed for a tag exactly where it is not hidden and one of its tags is that one,
/// whatever the case and the white space around them.
pub proof fn a_tag_lists_its_hosts(host: ProfileModel, tag: Seq<char>)
    requires
        trimmed(tag).len() > 0,
    ensures
        is_listed(host, seq![tag]) <==> !host.advanced.codex_hidden && exists|i: int|
            0 <= i < host.tags.len() && lowercase_text(trimmed(#[trigger] host.tags[i]))
                == lowercase_text(trimmed(tag)),
{
    let none = Seq::<Seq<char>>::empty();
    crate::model::tags_are_added_in_order(none, tag);
    assert(none.push(tag) =~= seq![tag]);
    assert(normalized(none) =~= none);
    assert(normalized(seq![tag]) =~= none.push(trimmed(tag)));
    crate::model::every_tag_is_required(Seq::empty(), none, trimmed(tag), host);
    crate::text::trimming_is_final(tag);
    lemma_empty_is_trimmed();
    assert(shows(Seq::empty(), none, host));
}

/// A listed host shows who it is and in what state, each under its name.
pub proof fn listed_hosts_show_their_details(level: nat, host: SummaryModel)
    ensures
        says(summary_json(level, host), "alias"@, quoted(host.alias)),
        says(summary_json(level, host), "description"@, quoted(host.description)),
        says(summary_json(level, host), "tags"@, text_list(level + 1, host.tags)),
        says(summary_json(level, host), "address"@, quoted(host.address)),
        says(summary_json(level, host), "port"@, decimal(host.port as nat)),
        says(summary_json(level, host), "username"@, quoted(host.username)),
        says(summary_json(level, host), "protocol"@, quoted(host.protocol)),
        says(summary_json(level, host), "verified"@, truth(host.verified)),
        says(summary_json(level, host), "max_channels"@, decimal(host.max_channels as nat)),
        says(summary_json(level, host), "has_required_secret"@, truth(host.has_required_secret)),
        says(summary_json(level, host), "has_host_fingerprint"@, truth(host.has_host_fingerprint)),
        host.ssh_auth matches Some(value) ==> says(
            summary_json(level, host),
            "ssh_auth"@,
            quoted(value),
        ),
        host.agent_key_fingerprint matches Some(value) ==> says(
            summary_json(level, host),
            "agent_key_fingerprint"@,
            quoted(value),
        ),
        host.jump_host matches Some(value) ==> says(
            summary_json(level, host),
            "jump_host"@,
            quoted(value),
        ),
{
    let base = identity_members(level, host);
    let auth = optional(level, "ssh_auth"@, host.ssh_auth);
    let agent = optional(level, "agent_key_fingerprint"@, host.agent_key_fingerprint);
    let jump = optional(level, "jump_host"@, host.jump_host);
    let state = state_members(level, host);
    let kind = optional(level, "host_key_algorithm"@, host.host_key_algorithm);
    let whole = base + (auth + agent + jump) + state + kind;
    let at = 7 + (auth + agent + jump).len() as int;
    lemma_says_at(level, whole, 0, "alias"@, quoted(host.alias));
    lemma_says_at(level, whole, 1, "description"@, quoted(host.description));
    lemma_says_at(level, whole, 2, "tags"@, text_list(level + 1, host.tags));
    lemma_says_at(level, whole, 3, "address"@, quoted(host.address));
    lemma_says_at(level, whole, 4, "port"@, decimal(host.port as nat));
    lemma_says_at(level, whole, 5, "username"@, quoted(host.username));
    lemma_says_at(level, whole, 6, "protocol"@, quoted(host.protocol));
    lemma_says_at(level, whole, at, "verified"@, truth(host.verified));
    lemma_says_at(level, whole, at + 2, "max_channels"@, decimal(host.max_channels as nat));
    lemma_says_at(level, whole, at + 4, "has_required_secret"@, truth(host.has_required_secret));
    lemma_says_at(level, whole, at + 5, "has_host_fingerprint"@, truth(host.has_host_fingerprint));
    if host.ssh_auth is Some {
        assert(whole =~= base + auth + (agent + jump + state + kind));
        lemma_says_optional(level, base, "ssh_auth"@, host.ssh_auth, agent + jump + state + kind);
    }
    if host.agent_key_fingerprint is Some {
        assert(whole =~= (base + auth) + agent + (jump + state + kind));
        lemma_says_optional(
            level,
            base + auth,
            "agent_key_fingerprint"@,
            host.agent_key_fingerprint,
            jump + state + kind,
        );
    }
    if host.jump_host is Some {
        assert(whole =~= (base + auth + agent) + jump + (state + kind));
        lemma_says_optional(
            level,
            base + auth + agent,
            "jump_host"@,
            host.jump_host,
            state + kind,
        );
    }
}

/// The list shows every host.
pub proof fn lists_show_every_host(hosts: Seq<SummaryModel>, i: int)
    requires
        0 <= i < hosts.len(),
    ensures
        says(list_json(hosts), "status"@, quoted("ok"@)),
        has_part(list_json(hosts), summary_json(2, hosts[i])),
{
    let items = Seq::new(hosts.len(), |i: int| summary_json(2, hosts[i]));
    let members = seq![
        member(0, "schema_version"@, decimal(SCHEMA_VERSION as nat)),
        member(0, "status"@, quoted("ok"@)),
        member(0, "hosts"@, list(1, items)),
    ];
    lemma_says_at(0, members, 1, "status"@, quoted("ok"@));
    lemma_says_at(0, members, 2, "hosts"@, list(1, items));
    lists_show_their_items(1, items, i);
    lemma_says_within(list_json(hosts), "hosts"@, list(1, items), items[i]);
}

/// The lists of identities show every key with its fingerprint.
pub proof fn identities_are_shown(helper_available: bool, keys: Seq<FidoKeyInfo>, i: int)
    requires
        0 <= i < keys.len(),
    ensures
        says(
            fido_identities_json(helper_available, keys),
            "helper_available"@,
            truth(helper_available),
        ),
        has_part(fido_identities_json(helper_available, keys), fido_key_json(2, keys[i])),
        says(fido_key_json(2, keys[i]), "path"@, quoted(keys[i].path@)),
        says(fido_key_json(2, keys[i]), "fingerprint"@, quoted(keys[i].fingerprint@)),
        says(fido_key_json(2, keys[i]), "algorithm"@, quoted(keys[i].algorithm@)),
        says(fido_key_json(2, keys[i]), "public_key"@, quoted(keys[i].public_key@)),
{
    let items = Seq::new(keys.len(), |i: int| fido_key_json(2, keys[i]));
    let members = seq![
        member(0, "schema_version"@, decimal(SCHEMA_VERSION as nat)),
        member(0, "status"@, quoted("ok"@)),
        member(0, "helper_available"@, truth(helper_available)),
        member(0, "identities"@, list(1, items)),
    ];
    lemma_says_at(0, members, 2, "helper_available"@, truth(helper_available));
    lemma_says_at(0, members, 3, "identities"@, list(1, items));
    lists_show_their_items(1, items, i);
    lemma_says_within(
        fido_identities_json(helper_available, keys),
        "identities"@,
        list(1, items),
        items[i],
    );
    let key = seq![
        member(2, "path"@, quoted(keys[i].path@)),
        member(2, "fingerprint"@, quoted(keys[i].fingerprint@)),
        member(2, "algorithm"@, quoted(keys[i].algorithm@)),
        member(2, "public_key"@, quoted(keys[i].public_key@)),
    ];
    lemma_says_at(2, key, 0, "path"@, quoted(keys[i].path@));
    lemma_says_at(2, key, 1, "fingerprint"@, quoted(keys[i].fingerprint@));
    lemma_says_at(2, key, 2, "algorithm"@, quoted(keys[i].algorithm@));
    lemma_says_at(2, key, 3, "public_key"@, quoted(keys[i].public_key@));
}

/// What the tool offers is bounded by the numbers that it names.
pub proof fn bounds_are_told(version: Seq<char>)
    ensures
        says(object(0, ability_members(version) + bound_members()), "app_version"@, quoted(version)),
        says(
            object(0, ability_members(version) + bound_members()),
            "max_batch_hosts"@,
            decimal(256),
        ),
        says(
            object(0, ability_members(version) + bound_members()),
            "agent_forwarding"@,
            "false"@,
        ),
{
    let whole = ability_members(version) + bound_members();
    lemma_says_at(0, whole, 7, "app_version"@, quoted(version));
    lemma_says_at(0, whole, 11, "max_batch_hosts"@, decimal(MAX_BATCH_HOSTS as nat));
    lemma_says_at(0, whole, 20, "agent_forwarding"@, truth(false));
}

/// How long sessions are kept is shown by its name, with the minutes where there are any.
pub proof fn persistence_is_shown(level: nat, value: AuthPersistence)
    ensures
        value == AuthPersistence::PerCall ==> says(
            persistence_json(level, value),
            "mode"@,
            quoted("per_call"@),
        ),
        value == AuthPersistence::Session ==> says(
            persistence_json(level, value),
            "mode"@,
            quoted("session"@),
        ),
        value matches AuthPersistence::Idle { minutes } ==> says(
            persistence_json(level, value),
            "mode"@,
            quoted("idle"@),
        ) && says(persistence_json(level, value), "minutes"@, decimal(minutes as nat)),
{
    match value {
        AuthPersistence::PerCall => {
            lemma_says_at(
                level,
                seq![member(level, "mode"@, quoted("per_call"@))],
                0,
                "mode"@,
                quoted("per_call"@),
            );
        },
        AuthPersistence::Session => {
            lemma_says_at(
                level,
                seq![member(level, "mode"@, quoted("session"@))],
                0,
                "mode"@,
                quoted("session"@),
            );
        },
        AuthPersistence::Idle { minutes } => {
            let members = seq![
                member(level, "mode"@, quoted("idle"@)),
                member(level, "minutes"@, decimal(minutes as nat)),
            ];
            lemma_says_at(level, members, 0, "mode"@, quoted("idle"@));
            lemma_says_at(level, members, 1, "minutes"@, decimal(minutes as nat));
        },
    }
}

} // verus!

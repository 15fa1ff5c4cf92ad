//! Host profiles: their fields, validation, search and jump chains.
use vstd::prelude::*;

use crate::id::{is_random_id, Id};
use crate::text::{
    contains, contains_text, copy_optional, copy_texts, eq_ignore_case, is_blank, lowercase,
    lowercase_text, optional_text, same_ignoring_case, same_optional, same_text, same_texts, texts,
    trim, trimmed, trimming_is_final,
};

verus! {

#[derive(Debug, Clone, Copy, PartialEq, Eq, Structural)]
pub enum Protocol {
    Ssh,
    Telnet,
}

impl Default for Protocol {
    fn default() -> (r: Self)
        ensures
            r == Protocol::Ssh,
    {
        Protocol::Ssh
    }
}

impl Protocol {
    pub open spec fn port_number(self) -> u16 {
        match self {
            Protocol::Ssh => 22,
            Protocol::Telnet => 23,
        }
    }

    pub open spec fn name(self) -> Seq<char> {
        match self {
            Protocol::Ssh => "ssh"@,
            Protocol::Telnet => "telnet"@,
        }
    }

    pub fn default_port(self) -> (r: u16)
        ensures
            r == self.port_number(),
    {
        match self {
            Self::Ssh => 22,
            Self::Telnet => 23,
        }
    }

    pub fn stable_name(self) -> (r: &'static str)
        ensures
            r@ == self.name(),
    {
        match self {
            Self::Ssh => "ssh",
            Self::Telnet => "telnet",
        }
    }
}

#[derive(Debug, Clone, Copy, PartialEq, Eq, Structural)]
pub enum SshAuth {
    Password,
    PrivateKey,
    SshAgent,
}

impl Default for SshAuth {
    fn default() -> (r: Self)
        ensures
            r == SshAuth::Password,
    {
        SshAuth::Password
    }
}

impl SshAuth {
    pub open spec fn name(self) -> Seq<char> {
        match self {
            SshAuth::Password => "password"@,
            SshAuth::PrivateKey => "private_key"@,
            SshAuth::SshAgent => "ssh_agent"@,
        }
    }

    pub fn stable_name(self) -> (r: &'static str)
        ensures
            r@ == self.name(),
    {
        match self {
            Self::Password => "password",
            Self::PrivateKey => "private_key",
            Self::SshAgent => "ssh_agent",
        }
    }
}

/// How long an authenticated session may outlive the tool call that opened it. By default every
/// call authenticates again.
#[derive(Debug, Clone, Copy, PartialEq, Eq, Structural)]
pub enum AuthPersistence {
    PerCall,
    Session,
    Idle { minutes: u32 },
}

impl Default for AuthPersistence {
    fn default() -> (r: Self)
        ensures
            r == AuthPersistence::PerCall,
    {
        AuthPersistence::PerCall
    }
}

pub const MAX_IDLE_PERSISTENCE_MINUTES: u32 = 24 * 60;

/// Retention of a connection or of a whole jump chain; the idle limit is in seconds.
#[derive(Debug, Clone, Copy, PartialEq, Eq, Structural)]
pub enum Retention {
    Session,
    Idle(u64),
}

/// `a` keeps a session for no longer than `b` does; no retention is the strictest of all.
pub open spec fn at_most_as_long(a: Option<Retention>, b: Option<Retention>) -> bool {
    match (a, b) {
        (None, _) => true,
        (Some(_), None) => false,
        (_, Some(Retention::Session)) => true,
        (Some(Retention::Session), Some(Retention::Idle(_))) => false,
        (Some(Retention::Idle(x)), Some(Retention::Idle(y))) => x <= y,
    }
}

impl AuthPersistence {
    pub open spec fn kept_for(self) -> Option<Retention> {
        match self {
            AuthPersistence::PerCall => None,
            AuthPersistence::Session => Some(Retention::Session),
            AuthPersistence::Idle { minutes } => {
                let clamped: int = if minutes < 1 {
                    1
                } else if minutes > MAX_IDLE_PERSISTENCE_MINUTES {
                    MAX_IDLE_PERSISTENCE_MINUTES as int
                } else {
                    minutes as int
                };
                Some(Retention::Idle((clamped * 60) as u64))
            },
        }
    }

    pub fn retention(self) -> (r: Option<Retention>)
        ensures
            r == self.kept_for(),
    {
        match self {
            Self::PerCall => None,
            Self::Session => Some(Retention::Session),
            Self::Idle { minutes } => {
                let clamped: u32 = if minutes < 1 {
                    1
                } else if minutes > MAX_IDLE_PERSISTENCE_MINUTES {
                    MAX_IDLE_PERSISTENCE_MINUTES
                } else {
                    minutes
                };
                Some(Retention::Idle(clamped as u64 * 60))
            },
        }
    }
}

/// The stricter of two retentions.
pub open spec fn stricter(a: Retention, b: Retention) -> Retention {
    match (a, b) {
        (Retention::Session, other) => other,
        (other, Retention::Session) => other,
        (Retention::Idle(x), Retention::Idle(y)) => Retention::Idle(
            if x <= y {
                x
            } else {
                y
            },
        ),
    }
}

/// Retention of a chain: the strictest of its hops. A hop that authenticates per call makes the
/// whole chain per call, and so does an empty chain.
pub open spec fn strictest(chain: Seq<ProfileModel>) -> Option<Retention>
    decreases chain.len(),
{
    if chain.len() == 0 {
        None
    } else if chain.len() == 1 {
        chain[0].persistence().kept_for()
    } else {
        match (strictest(chain.drop_last()), chain.last().persistence().kept_for()) {
            (Some(before), Some(hop)) => Some(stricter(before, hop)),
            _ => None,
        }
    }
}

/// No hop of a chain keeps its session for longer than it allows, and the chain's retention is
/// that of one of its hops.
pub proof fn chain_retention_is_the_strictest(chain: Seq<ProfileModel>)
    ensures
        forall|i: int|
            0 <= i < chain.len() ==> at_most_as_long(
                strictest(chain),
                (#[trigger] chain[i]).persistence().kept_for(),
            ),
        chain.len() > 0 ==> exists|i: int|
            0 <= i < chain.len() && strictest(chain) == (
            #[trigger] chain[i]).persistence().kept_for(),
    decreases chain.len(),
{
    if chain.len() == 1 {
        assert(strictest(chain) == chain[0].persistence().kept_for());
    } else if chain.len() > 1 {
        let before = chain.drop_last();
        chain_retention_is_the_strictest(before);
        let last = chain.len() - 1;
        assert(forall|i: int| 0 <= i < last ==> before[i] == chain[i]);
        let k = choose|i: int|
            0 <= i < before.len() && strictest(before) == (
            #[trigger] before[i]).persistence().kept_for();
        assert(chain[k].persistence().kept_for() == strictest(before));
        assert(chain[last].persistence().kept_for() == chain.last().persistence().kept_for());
        assert forall|i: int| 0 <= i < chain.len() implies at_most_as_long(
            strictest(chain),
            (#[trigger] chain[i]).persistence().kept_for(),
        ) by {
            if i < last {
                assert(before[i] == chain[i]);
            }
        }
    }
}

pub fn chain_retention(chain: &Vec<&HostProfile>) -> (r: Option<Retention>)
    ensures
        r == strictest(models_of(chain@)),
{
    let mut retention: Option<Retention> = None;
    let mut i: usize = 0;
    let ghost hops = models_of(chain@);
    while i < chain.len()
        invariant
            i <= chain@.len(),
            hops == models_of(chain@),
            retention == strictest(hops.take(i as int)),
            i > 0 ==> retention is Some,
        decreases chain@.len() - i,
    {
        assert(hops.take(i + 1).drop_last() =~= hops.take(i as int));
        assert(hops.take(i + 1).last() == chain@[i as int]@);
        let hop = match chain[i].effective_auth_persistence().retention() {
            Some(hop) => hop,
            None => {
                proof {
                    chain_retention_is_the_strictest(hops);
                    assert(hops[i as int].persistence().kept_for() is None);
                }
                return None;
            },
        };
        retention = Some(
            match (retention, hop) {
                (None, hop) => hop,
                (Some(Retention::Session), other) => other,
                (Some(other), Retention::Session) => other,
                (Some(Retention::Idle(a)), Retention::Idle(b)) => Retention::Idle(
                    if a <= b {
                        a
                    } else {
                        b
                    },
                ),
            },
        );
        i = i + 1;
    }
    assert(hops.take(chain@.len() as int) =~= hops);
    retention
}

pub const MAX_CHANNELS_PER_HOST: u8 = 16;

pub const DEFAULT_CHANNELS_PER_HOST: u8 = 8;

pub const MIN_KEEPALIVE_SECONDS: u16 = 10;

pub const MAX_KEEPALIVE_SECONDS: u16 = 300;

pub const DEFAULT_KEEPALIVE_SECONDS: u16 = 30;

/// A hint about the remote shell family; nothing here acts on it.
#[derive(Debug, Clone, Copy, PartialEq, Eq, Structural)]
pub enum RemoteEnv {
    Auto,
    Posix,
    Windows,
}

impl Default for RemoteEnv {
    fn default() -> (r: Self)
        ensures
            r == RemoteEnv::Auto,
    {
        RemoteEnv::Auto
    }
}

/// Login-flow prompts for Telnet devices whose banners differ from the defaults.
#[derive(Debug, PartialEq, Eq)]
pub struct TelnetPrompts {
    pub login: String,
    pub password: String,
}

/// The prompts as texts.
pub struct PromptsModel {
    pub login: Seq<char>,
    pub password: Seq<char>,
}

impl View for TelnetPrompts {
    type V = PromptsModel;

    open spec fn view(&self) -> PromptsModel {
        PromptsModel { login: self.login@, password: self.password@ }
    }
}

impl Default for TelnetPrompts {
    fn default() -> (r: Self)
        ensures
            r@.login.len() == 0,
            r@.password.len() == 0,
    {
        TelnetPrompts { login: String::new(), password: String::new() }
    }
}

impl Clone for TelnetPrompts {
    fn clone(&self) -> (r: Self)
        ensures
            r@ == self@,
    {
        TelnetPrompts { login: self.login.clone(), password: self.password.clone() }
    }
}

/// Optional per-host tuning; a field left at its default means "use the global value".
#[derive(Debug, PartialEq, Eq)]
pub struct AdvancedSettings {
    pub max_channels: Option<u8>,
    pub connect_timeout_s: Option<u32>,
    pub command_timeout_s: Option<u32>,
    pub keepalive_s: Option<u16>,
    pub remote_env: RemoteEnv,
    pub codex_hidden: bool,
    pub telnet_prompts: Option<TelnetPrompts>,
}

/// The tuning as plain values.
pub struct AdvancedModel {
    pub max_channels: Option<u8>,
    pub connect_timeout_s: Option<u32>,
    pub command_timeout_s: Option<u32>,
    pub keepalive_s: Option<u16>,
    pub remote_env: RemoteEnv,
    pub codex_hidden: bool,
    pub telnet_prompts: Option<PromptsModel>,
}

impl View for AdvancedSettings {
    type V = AdvancedModel;

    open spec fn view(&self) -> AdvancedModel {
        AdvancedModel {
            max_channels: self.max_channels,
            connect_timeout_s: self.connect_timeout_s,
            command_timeout_s: self.command_timeout_s,
            keepalive_s: self.keepalive_s,
            remote_env: self.remote_env,
            codex_hidden: self.codex_hidden,
            telnet_prompts: match self.telnet_prompts {
                Some(prompts) => Some(prompts@),
                None => None,
            },
        }
    }
}

impl AdvancedModel {
    /// Nothing is tuned.
    pub open spec fn plain() -> AdvancedModel {
        AdvancedModel {
            max_channels: None,
            connect_timeout_s: None,
            command_timeout_s: None,
            keepalive_s: None,
            remote_env: RemoteEnv::Auto,
            codex_hidden: false,
            telnet_prompts: None,
        }
    }

    /// Every value that is set lies in its range.
    pub open spec fn in_range(self) -> bool {
        &&& self.max_channels matches Some(n) ==> 1 <= n <= MAX_CHANNELS_PER_HOST
        &&& self.keepalive_s matches Some(n) ==> MIN_KEEPALIVE_SECONDS <= n
            <= MAX_KEEPALIVE_SECONDS
        &&& self.connect_timeout_s matches Some(n) ==> n >= 1
        &&& self.command_timeout_s matches Some(n) ==> n >= 1
    }
}

impl Default for AdvancedSettings {
    fn default() -> (r: Self)
        ensures
            r@ == AdvancedModel::plain(),
    {
        AdvancedSettings {
            max_channels: None,
            connect_timeout_s: None,
            command_timeout_s: None,
            keepalive_s: None,
            remote_env: RemoteEnv::Auto,
            codex_hidden: false,
            telnet_prompts: None,
        }
    }
}

impl Clone for AdvancedSettings {
    fn clone(&self) -> (r: Self)
        ensures
            r@ == self@,
    {
        AdvancedSettings {
            max_channels: self.max_channels,
            connect_timeout_s: self.connect_timeout_s,
            command_timeout_s: self.command_timeout_s,
            keepalive_s: self.keepalive_s,
            remote_env: self.remote_env,
            codex_hidden: self.codex_hidden,
            telnet_prompts: match &self.telnet_prompts {
                Some(prompts) => Some(prompts.clone()),
                None => None,
            },
        }
    }
}

impl AdvancedSettings {
    pub fn is_default(&self) -> (r: bool)
        ensures
            r == (self@ == AdvancedModel::plain()),
    {
        self.max_channels.is_none() && self.connect_timeout_s.is_none()
            && self.command_timeout_s.is_none() && self.keepalive_s.is_none() && self.remote_env
            == RemoteEnv::Auto && !self.codex_hidden && self.telnet_prompts.is_none()
    }

    pub fn max_channels(&self) -> (r: usize)
        ensures
            r == match self@.max_channels {
                Some(n) => n as int,
                None => DEFAULT_CHANNELS_PER_HOST as int,
            },
    {
        match self.max_channels {
            Some(n) => n as usize,
            None => DEFAULT_CHANNELS_PER_HOST as usize,
        }
    }

    /// The keepalive interval in seconds.
    pub fn keepalive(&self) -> (r: u64)
        ensures
            r == match self@.keepalive_s {
                Some(n) => n as int,
                None => DEFAULT_KEEPALIVE_SECONDS as int,
            },
    {
        match self.keepalive_s {
            Some(n) => n as u64,
            None => DEFAULT_KEEPALIVE_SECONDS as u64,
        }
    }

    pub fn validation_issue(&self) -> (r: Option<ValidationIssue>)
        ensures
            r == if self@.in_range() {
                None
            } else {
                Some(ValidationIssue::Advanced)
            },
    {
        let channels_ok = match self.max_channels {
            Some(n) => 1 <= n && n <= MAX_CHANNELS_PER_HOST,
            None => true,
        };
        let keepalive_ok = match self.keepalive_s {
            Some(n) => MIN_KEEPALIVE_SECONDS <= n && n <= MAX_KEEPALIVE_SECONDS,
            None => true,
        };
        let connect_ok = match self.connect_timeout_s {
            Some(n) => n >= 1,
            None => true,
        };
        let command_ok = match self.command_timeout_s {
            Some(n) => n >= 1,
            None => true,
        };
        if channels_ok && keepalive_ok && connect_ok && command_ok {
            None
        } else {
            Some(ValidationIssue::Advanced)
        }
    }

    /// Whether both hold the same values.
    pub fn same(&self, other: &Self) -> (r: bool)
        ensures
            r == (self@ == other@),
    {
        let prompts_same = match (&self.telnet_prompts, &other.telnet_prompts) {
            (Some(a), Some(b)) => same_text(a.login.as_str(), b.login.as_str()) && same_text(
                a.password.as_str(),
                b.password.as_str(),
            ),
            (None, None) => true,
            _ => false,
        };
        prompts_same && self.max_channels == other.max_channels && self.connect_timeout_s
            == other.connect_timeout_s && self.command_timeout_s == other.command_timeout_s
            && self.keepalive_s == other.keepalive_s && self.remote_env == other.remote_env
            && self.codex_hidden == other.codex_hidden
    }
}

#[derive(Debug, PartialEq, Eq)]
pub struct HostProfile {
    pub id: Id,
    pub alias: String,
    pub description: String,
    pub tags: Vec<String>,
    pub address: String,
    pub port: u16,
    pub username: String,
    pub protocol: Protocol,
    pub ssh_auth: SshAuth,
    pub private_key_path: String,
    pub agent_key_fingerprint: String,
    pub host_fingerprint: Option<String>,
    pub host_key_algorithm: Option<String>,
    pub host_key_first_seen_unix: Option<u64>,
    pub host_key_last_verified_unix: Option<u64>,
    pub jump_host: Option<Id>,
    pub verified: bool,
    pub auth_persistence: AuthPersistence,
    pub advanced: AdvancedSettings,
}

/// A profile as plain values.
#[verifier::ext_equal]
pub struct ProfileModel {
    pub id: Id,
    pub alias: Seq<char>,
    pub description: Seq<char>,
    pub tags: Seq<Seq<char>>,
    pub address: Seq<char>,
    pub port: u16,
    pub username: Seq<char>,
    pub protocol: Protocol,
    pub ssh_auth: SshAuth,
    pub private_key_path: Seq<char>,
    pub agent_key_fingerprint: Seq<char>,
    pub host_fingerprint: Option<Seq<char>>,
    pub host_key_algorithm: Option<Seq<char>>,
    pub host_key_first_seen_unix: Option<u64>,
    pub host_key_last_verified_unix: Option<u64>,
    pub jump_host: Option<Id>,
    pub verified: bool,
    pub auth_persistence: AuthPersistence,
    pub advanced: AdvancedModel,
}

impl View for HostProfile {
    type V = ProfileModel;

    open spec fn view(&self) -> ProfileModel {
        ProfileModel {
            id: self.id,
            alias: self.alias@,
            description: self.description@,
            tags: texts(self.tags@),
            address: self.address@,
            port: self.port,
            username: self.username@,
            protocol: self.protocol,
            ssh_auth: self.ssh_auth,
            private_key_path: self.private_key_path@,
            agent_key_fingerprint: self.agent_key_fingerprint@,
            host_fingerprint: optional_text(self.host_fingerprint),
            host_key_algorithm: optional_text(self.host_key_algorithm),
            host_key_first_seen_unix: self.host_key_first_seen_unix,
            host_key_last_verified_unix: self.host_key_last_verified_unix,
            jump_host: self.jump_host,
            verified: self.verified,
            auth_persistence: self.auth_persistence,
            advanced: self.advanced@,
        }
    }
}

/// The models of a list of profiles.
pub open spec fn models(hosts: Seq<HostProfile>) -> Seq<ProfileModel> {
    Seq::new(hosts.len(), |i: int| hosts[i]@)
}

/// The models of a list of borrowed profiles.
pub open spec fn models_of(hosts: Seq<&HostProfile>) -> Seq<ProfileModel> {
    Seq::new(hosts.len(), |i: int| hosts[i]@)
}

impl ProfileModel {
    /// A profile of this identity in which nothing is filled in.
    pub open spec fn blank(id: Id) -> ProfileModel {
        ProfileModel {
            id,
            alias: Seq::empty(),
            description: Seq::empty(),
            tags: Seq::empty(),
            address: Seq::empty(),
            port: 22,
            username: Seq::empty(),
            protocol: Protocol::Ssh,
            ssh_auth: SshAuth::Password,
            private_key_path: Seq::empty(),
            agent_key_fingerprint: Seq::empty(),
            host_fingerprint: None,
            host_key_algorithm: None,
            host_key_first_seen_unix: None,
            host_key_last_verified_unix: None,
            jump_host: None,
            verified: false,
            auth_persistence: AuthPersistence::PerCall,
            advanced: AdvancedModel::plain(),
        }
    }

    /// The first thing that is wrong with the profile, in the order of the form.
    pub open spec fn issue(self) -> Option<ValidationIssue> {
        if trimmed(self.alias).len() == 0 {
            Some(ValidationIssue::Alias)
        } else if trimmed(self.address).len() == 0 {
            Some(ValidationIssue::Address)
        } else if trimmed(self.username).len() == 0 {
            Some(ValidationIssue::Username)
        } else if self.port == 0 {
            Some(ValidationIssue::Port)
        } else if self.protocol == Protocol::Ssh && self.ssh_auth == SshAuth::PrivateKey && trimmed(
            self.private_key_path,
        ).len() == 0 {
            Some(ValidationIssue::PrivateKey)
        } else if self.protocol == Protocol::Telnet && self.jump_host is Some {
            Some(ValidationIssue::TelnetChain)
        } else if self.auth_persistence matches AuthPersistence::Idle { minutes } && !(1 <= minutes
            <= MAX_IDLE_PERSISTENCE_MINUTES) {
            Some(ValidationIssue::AuthPersistence)
        } else if !self.advanced.in_range() {
            Some(ValidationIssue::Advanced)
        } else {
            None
        }
    }

    /// Telnet has no session layer, so its profiles always authenticate per call.
    pub open spec fn persistence(self) -> AuthPersistence {
        match self.protocol {
            Protocol::Ssh => self.auth_persistence,
            Protocol::Telnet => AuthPersistence::PerCall,
        }
    }

    /// Both profiles reach the same account in the same way.
    pub open spec fn same_connection(self, other: ProfileModel) -> bool {
        &&& trimmed(self.address) == trimmed(other.address)
        &&& self.port == other.port
        &&& trimmed(self.username) == trimmed(other.username)
        &&& self.protocol == other.protocol
        &&& self.ssh_auth == other.ssh_auth
        &&& trimmed(self.private_key_path) == trimmed(other.private_key_path)
        &&& trimmed(self.agent_key_fingerprint) == trimmed(other.agent_key_fingerprint)
        &&& self.jump_host == other.jump_host
    }

    /// The profile once the given values replace its own. A new protocol brings its port unless
    /// a port is given as well.
    pub open spec fn prefilled(self, prefill: PrefillModel) -> ProfileModel {
        ProfileModel {
            description: or_text(prefill.description, self.description),
            tags: match prefill.tags {
                Some(tags) => normalized(tags),
                None => self.tags,
            },
            alias: or_text(prefill.alias, self.alias),
            address: or_text(prefill.address, self.address),
            port: match (prefill.port, prefill.protocol) {
                (Some(port), _) => port,
                (None, Some(protocol)) => protocol.port_number(),
                (None, None) => self.port,
            },
            username: or_text(prefill.username, self.username),
            protocol: match prefill.protocol {
                Some(protocol) => protocol,
                None => self.protocol,
            },
            ssh_auth: match prefill.ssh_auth {
                Some(ssh_auth) => ssh_auth,
                None => self.ssh_auth,
            },
            private_key_path: or_text(prefill.private_key_path, self.private_key_path),
            agent_key_fingerprint: or_text(
                prefill.agent_key_fingerprint,
                self.agent_key_fingerprint,
            ),
            ..self
        }
    }
}

pub open spec fn or_text(value: Option<Seq<char>>, otherwise: Seq<char>) -> Seq<char> {
    match value {
        Some(text) => text,
        None => otherwise,
    }
}

/// Puts the value, if there is one, in place of the text.
fn replace_text(target: &mut String, value: &Option<String>)
    ensures
        final(target)@ == or_text(optional_text(*value), old(target)@),
{
    if let Some(text) = value {
        *target = text.clone();
    }
}

impl Default for HostProfile {
    fn default() -> (r: Self)
        ensures
            r@ == ProfileModel::blank(r.id),
            is_random_id(r.id.value),
    {
        let r = HostProfile {
            id: Id::new_v4(),
            alias: String::new(),
            description: String::new(),
            tags: Vec::new(),
            address: String::new(),
            port: 22,
            username: String::new(),
            protocol: Protocol::Ssh,
            ssh_auth: SshAuth::Password,
            private_key_path: String::new(),
            agent_key_fingerprint: String::new(),
            host_fingerprint: None,
            host_key_algorithm: None,
            host_key_first_seen_unix: None,
            host_key_last_verified_unix: None,
            jump_host: None,
            verified: false,
            auth_persistence: AuthPersistence::PerCall,
            advanced: AdvancedSettings::default(),
        };
        assert(r@ =~= ProfileModel::blank(r.id));
        r
    }
}

impl Clone for HostProfile {
    fn clone(&self) -> (r: Self)
        ensures
            r@ == self@,
    {
        HostProfile {
            id: self.id,
            alias: self.alias.clone(),
            description: self.description.clone(),
            tags: copy_texts(&self.tags),
            address: self.address.clone(),
            port: self.port,
            username: self.username.clone(),
            protocol: self.protocol,
            ssh_auth: self.ssh_auth,
            private_key_path: self.private_key_path.clone(),
            agent_key_fingerprint: self.agent_key_fingerprint.clone(),
            host_fingerprint: copy_optional(&self.host_fingerprint),
            host_key_algorithm: copy_optional(&self.host_key_algorithm),
            host_key_first_seen_unix: self.host_key_first_seen_unix,
            host_key_last_verified_unix: self.host_key_last_verified_unix,
            jump_host: self.jump_host,
            verified: self.verified,
            auth_persistence: self.auth_persistence,
            advanced: self.advanced.clone(),
        }
    }
}

impl HostProfile {
    /// A blank profile with a fresh identity and the given alias.
    pub fn new(alias: String) -> (r: Self)
        ensures
            r@ == (ProfileModel { alias: alias@, ..ProfileModel::blank(r.id) }),
            is_random_id(r.id.value),
    {
        let mut r = HostProfile::default();
        r.alias = alias;
        r
    }

    pub fn validation_issue(&self) -> (r: Option<ValidationIssue>)
        ensures
            r == self@.issue(),
    {
        if is_blank(self.alias.as_str()) {
            return Some(ValidationIssue::Alias);
        }
        if is_blank(self.address.as_str()) {
            return Some(ValidationIssue::Address);
        }
        if is_blank(self.username.as_str()) {
            return Some(ValidationIssue::Username);
        }
        if self.port == 0 {
            return Some(ValidationIssue::Port);
        }
        if self.protocol == Protocol::Ssh && self.ssh_auth == SshAuth::PrivateKey && is_blank(
            self.private_key_path.as_str(),
        ) {
            return Some(ValidationIssue::PrivateKey);
        }
        if self.protocol == Protocol::Telnet && self.jump_host.is_some() {
            return Some(ValidationIssue::TelnetChain);
        }
        if let AuthPersistence::Idle { minutes } = self.auth_persistence {
            if minutes < 1 || minutes > MAX_IDLE_PERSISTENCE_MINUTES {
                return Some(ValidationIssue::AuthPersistence);
            }
        }
        self.advanced.validation_issue()
    }

    /// Telnet has no session layer, so its profiles always authenticate per call.
    pub fn effective_auth_persistence(&self) -> (r: AuthPersistence)
        ensures
            r == self@.persistence(),
    {
        match self.protocol {
            Protocol::Ssh => self.auth_persistence,
            Protocol::Telnet => AuthPersistence::PerCall,
        }
    }

    pub fn connection_details_equal(&self, other: &Self) -> (r: bool)
        ensures
            r == self@.same_connection(other@),
    {
        same_text(trim(self.address.as_str()), trim(other.address.as_str())) && self.port
            == other.port && same_text(
            trim(self.username.as_str()),
            trim(other.username.as_str()),
        ) && self.protocol == other.protocol && self.ssh_auth == other.ssh_auth && same_text(
            trim(self.private_key_path.as_str()),
            trim(other.private_key_path.as_str()),
        ) && same_text(
            trim(self.agent_key_fingerprint.as_str()),
            trim(other.agent_key_fingerprint.as_str()),
        ) && self.jump_host == other.jump_host
    }

    pub fn apply_prefill(&mut self, prefill: &Prefill)
        ensures
            final(self)@ == old(self)@.prefilled(prefill@),
    {
        replace_text(&mut self.description, &prefill.description);
        if let Some(tags) = &prefill.tags {
            self.tags = normalize_tags(tags);
        }
        replace_text(&mut self.alias, &prefill.alias);
        replace_text(&mut self.address, &prefill.address);
        replace_text(&mut self.username, &prefill.username);
        self.port = match (prefill.port, prefill.protocol) {
            (Some(port), _) => port,
            (None, Some(protocol)) => protocol.default_port(),
            (None, None) => self.port,
        };
        if let Some(protocol) = prefill.protocol {
            self.protocol = protocol;
        }
        if let Some(ssh_auth) = prefill.ssh_auth {
            self.ssh_auth = ssh_auth;
        }
        replace_text(&mut self.private_key_path, &prefill.private_key_path);
        replace_text(&mut self.agent_key_fingerprint, &prefill.agent_key_fingerprint);
        assert(self@ =~= old(self)@.prefilled(prefill@));
    }

    /// Whether both profiles hold the same values.
    pub fn same(&self, other: &Self) -> (r: bool)
        ensures
            r == (self@ == other@),
    {
        self.id == other.id && same_text(self.alias.as_str(), other.alias.as_str()) && same_text(
            self.description.as_str(),
            other.description.as_str(),
        ) && same_texts(&self.tags, &other.tags) && same_text(
            self.address.as_str(),
            other.address.as_str(),
        ) && self.port == other.port && same_text(
            self.username.as_str(),
            other.username.as_str(),
        ) && self.protocol == other.protocol && self.ssh_auth == other.ssh_auth && same_text(
            self.private_key_path.as_str(),
            other.private_key_path.as_str(),
        ) && same_text(
            self.agent_key_fingerprint.as_str(),
            other.agent_key_fingerprint.as_str(),
        ) && same_optional(&self.host_fingerprint, &other.host_fingerprint) && same_optional(
            &self.host_key_algorithm,
            &other.host_key_algorithm,
        ) && self.host_key_first_seen_unix == other.host_key_first_seen_unix
            && self.host_key_last_verified_unix == other.host_key_last_verified_unix
            && self.jump_host == other.jump_host && self.verified == other.verified
            && self.auth_persistence == other.auth_persistence && self.advanced.same(
            &other.advanced,
        )
    }
}

#[derive(Debug, Clone, Copy, PartialEq, Eq, Structural)]
pub enum ValidationIssue {
    Alias,
    Address,
    Username,
    Port,
    PrivateKey,
    Chain,
    TelnetChain,
    AuthPersistence,
    Advanced,
}

impl ValidationIssue {
    pub open spec fn label(self) -> Seq<char> {
        match self {
            ValidationIssue::Alias => "alias is empty"@,
            ValidationIssue::Address => "address is empty"@,
            ValidationIssue::Username => "username is empty"@,
            ValidationIssue::Port => "port is 0"@,
            ValidationIssue::PrivateKey => "private key path is empty"@,
            ValidationIssue::Chain => "jump-host chain is invalid"@,
            ValidationIssue::TelnetChain => "a Telnet host cannot use a jump host"@,
            ValidationIssue::AuthPersistence => "idle minutes are out of range"@,
            ValidationIssue::Advanced => "advanced settings are out of range"@,
        }
    }

    pub open spec fn key(self) -> Seq<char> {
        match self {
            ValidationIssue::Alias => "validation_alias"@,
            ValidationIssue::Address => "validation_address"@,
            ValidationIssue::Username => "validation_username"@,
            ValidationIssue::Port => "validation_port"@,
            ValidationIssue::PrivateKey => "validation_private_key"@,
            ValidationIssue::Chain => "validation_chain"@,
            ValidationIssue::TelnetChain => "validation_telnet_chain"@,
            ValidationIssue::AuthPersistence => "validation_auth_persistence"@,
            ValidationIssue::Advanced => "validation_advanced"@,
        }
    }

    pub open spec fn variant(self) -> Seq<char> {
        match self {
            ValidationIssue::Alias => "Alias"@,
            ValidationIssue::Address => "Address"@,
            ValidationIssue::Username => "Username"@,
            ValidationIssue::Port => "Port"@,
            ValidationIssue::PrivateKey => "PrivateKey"@,
            ValidationIssue::Chain => "Chain"@,
            ValidationIssue::TelnetChain => "TelnetChain"@,
            ValidationIssue::AuthPersistence => "AuthPersistence"@,
            ValidationIssue::Advanced => "Advanced"@,
        }
    }

    /// The name of the variant, as it appears in failures.
    pub fn variant_name(self) -> (r: &'static str)
        ensures
            r@ == self.variant(),
    {
        match self {
            Self::Alias => "Alias",
            Self::Address => "Address",
            Self::Username => "Username",
            Self::Port => "Port",
            Self::PrivateKey => "PrivateKey",
            Self::Chain => "Chain",
            Self::TelnetChain => "TelnetChain",
            Self::AuthPersistence => "AuthPersistence",
            Self::Advanced => "Advanced",
        }
    }

    /// A short English label for tool results, which are not localised.
    pub fn tool_label(self) -> (r: &'static str)
        ensures
            r@ == self.label(),
    {
        match self {
            Self::Alias => "alias is empty",
            Self::Address => "address is empty",
            Self::Username => "username is empty",
            Self::Port => "port is 0",
            Self::PrivateKey => "private key path is empty",
            Self::Chain => "jump-host chain is invalid",
            Self::TelnetChain => "a Telnet host cannot use a jump host",
            Self::AuthPersistence => "idle minutes are out of range",
            Self::Advanced => "advanced settings are out of range",
        }
    }

    pub fn translation_key(self) -> (r: &'static str)
        ensures
            r@ == self.key(),
    {
        match self {
            Self::Alias => "validation_alias",
            Self::Address => "validation_address",
            Self::Username => "validation_username",
            Self::Port => "validation_port",
            Self::PrivateKey => "validation_private_key",
            Self::Chain => "validation_chain",
            Self::TelnetChain => "validation_telnet_chain",
            Self::AuthPersistence => "validation_auth_persistence",
            Self::Advanced => "validation_advanced",
        }
    }
}

/// Values that a profile is to take over; what is absent stays as it is.
#[derive(Debug)]
pub struct Prefill {
    pub alias: Option<String>,
    pub description: Option<String>,
    pub tags: Option<Vec<String>>,
    pub address: Option<String>,
    pub port: Option<u16>,
    pub username: Option<String>,
    pub protocol: Option<Protocol>,
    pub ssh_auth: Option<SshAuth>,
    pub private_key_path: Option<String>,
    pub agent_key_fingerprint: Option<String>,
    pub jump_alias: Option<String>,
}

/// The prefill as plain values.
pub struct PrefillModel {
    pub alias: Option<Seq<char>>,
    pub description: Option<Seq<char>>,
    pub tags: Option<Seq<Seq<char>>>,
    pub address: Option<Seq<char>>,
    pub port: Option<u16>,
    pub username: Option<Seq<char>>,
    pub protocol: Option<Protocol>,
    pub ssh_auth: Option<SshAuth>,
    pub private_key_path: Option<Seq<char>>,
    pub agent_key_fingerprint: Option<Seq<char>>,
    pub jump_alias: Option<Seq<char>>,
}

impl View for Prefill {
    type V = PrefillModel;

    open spec fn view(&self) -> PrefillModel {
        PrefillModel {
            alias: optional_text(self.alias),
            description: optional_text(self.description),
            tags: match self.tags {
                Some(tags) => Some(texts(tags@)),
                None => None,
            },
            address: optional_text(self.address),
            port: self.port,
            username: optional_text(self.username),
            protocol: self.protocol,
            ssh_auth: self.ssh_auth,
            private_key_path: optional_text(self.private_key_path),
            agent_key_fingerprint: optional_text(self.agent_key_fingerprint),
            jump_alias: optional_text(self.jump_alias),
        }
    }
}

impl PrefillModel {
    /// Nothing is taken over.
    pub open spec fn nothing() -> PrefillModel {
        PrefillModel {
            alias: None,
            description: None,
            tags: None,
            address: None,
            port: None,
            username: None,
            protocol: None,
            ssh_auth: None,
            private_key_path: None,
            agent_key_fingerprint: None,
            jump_alias: None,
        }
    }
}

impl Default for Prefill {
    fn default() -> (r: Self)
        ensures
            r@ == PrefillModel::nothing(),
    {
        Prefill {
            alias: None,
            description: None,
            tags: None,
            address: None,
            port: None,
            username: None,
            protocol: None,
            ssh_auth: None,
            private_key_path: None,
            agent_key_fingerprint: None,
            jump_alias: None,
        }
    }
}

/// The tag is in the list when letter case is ignored.
pub open spec fn has_tag(tags: Seq<Seq<char>>, tag: Seq<char>) -> bool {
    exists|i: int| 0 <= i < tags.len() && lowercase_text(#[trigger] tags[i]) == lowercase_text(tag)
}

/// Tags trimmed, blank ones dropped, and of tags that differ only in case the first kept.
pub open spec fn normalized(tags: Seq<Seq<char>>) -> Seq<Seq<char>>
    decreases tags.len(),
{
    if tags.len() == 0 {
        Seq::empty()
    } else {
        let kept = normalized(tags.drop_last());
        let tag = trimmed(tags.last());
        if tag.len() == 0 || has_tag(kept, tag) {
            kept
        } else {
            kept.push(tag)
        }
    }
}

/// Each tag is trimmed and not blank, and no two agree without case.
pub open spec fn is_normal(tags: Seq<Seq<char>>) -> bool {
    &&& forall|i: int|
        0 <= i < tags.len() ==> (#[trigger] tags[i]).len() > 0 && trimmed(tags[i]) == tags[i]
    &&& forall|i: int, j: int|
        0 <= i < j < tags.len() ==> lowercase_text(#[trigger] tags[i]) != lowercase_text(
            #[trigger] tags[j],
        )
}

/// Normalising leaves trimmed, non-blank tags that differ in more than case, loses no tag, and
/// takes nothing from a list that is normal already.
pub proof fn normalizing_tags(tags: Seq<Seq<char>>)
    ensures
        is_normal(normalized(tags)),
        forall|i: int|
            0 <= i < tags.len() && trimmed(#[trigger] tags[i]).len() > 0 ==> has_tag(
                normalized(tags),
                trimmed(tags[i]),
            ),
        is_normal(tags) ==> normalized(tags) == tags,
        normalized(normalized(tags)) == normalized(tags),
{
    lemma_normalized(tags);
    lemma_normal_is_kept(normalized(tags));
    if is_normal(tags) {
        lemma_normal_is_kept(tags);
    }
}

/// What a prefill leaves out keeps its value; an empty description and a single blank tag clear
/// theirs.
pub proof fn prefills_keep_what_they_leave_out(profile: ProfileModel, prefill: PrefillModel)
    ensures
        prefill.description is None ==> profile.prefilled(prefill).description
            == profile.description,
        prefill.tags is None ==> profile.prefilled(prefill).tags == profile.tags,
        prefill.description matches Some(text) ==> profile.prefilled(prefill).description == text,
        prefill.tags matches Some(tags) ==> tags.len() == 1 && trimmed(tags[0]).len() == 0
            ==> profile.prefilled(prefill).tags.len() == 0,
        profile.prefilled(prefill).id == profile.id,
        profile.prefilled(prefill).host_fingerprint == profile.host_fingerprint,
        profile.prefilled(prefill).advanced == profile.advanced,
        profile.prefilled(prefill).auth_persistence == profile.auth_persistence,
{
    if let Some(tags) = prefill.tags {
        if tags.len() == 1 && trimmed(tags[0]).len() == 0 {
            assert(normalized(tags.drop_last()).len() == 0);
        }
    }
}

proof fn lemma_normalized(tags: Seq<Seq<char>>)
    ensures
        is_normal(normalized(tags)),
        forall|i: int|
            0 <= i < tags.len() && trimmed(#[trigger] tags[i]).len() > 0 ==> has_tag(
                normalized(tags),
                trimmed(tags[i]),
            ),
    decreases tags.len(),
{
    if tags.len() > 0 {
        let kept = normalized(tags.drop_last());
        let tag = trimmed(tags.last());
        let result = normalized(tags);
        lemma_normalized(tags.drop_last());
        trimming_is_final(tags.last());
        assert forall|t: Seq<char>| has_tag(kept, t) implies has_tag(result, t) by {
            let i = choose|i: int|
                0 <= i < kept.len() && lowercase_text(#[trigger] kept[i]) == lowercase_text(t);
            assert(result[i] == kept[i]);
        }
        if tag.len() > 0 && !has_tag(kept, tag) {
            assert(result[kept.len() as int] == tag);
            assert(has_tag(result, tag));
        }
        assert forall|i: int|
            0 <= i < tags.len() && trimmed(#[trigger] tags[i]).len() > 0 implies has_tag(
            result,
            trimmed(tags[i]),
        ) by {
            if i < tags.len() - 1 {
                assert(tags.drop_last()[i] == tags[i]);
            }
        }
    }
}

proof fn lemma_normal_is_kept(tags: Seq<Seq<char>>)
    requires
        is_normal(tags),
    ensures
        normalized(tags) == tags,
    decreases tags.len(),
{
    if tags.len() > 0 {
        let before = tags.drop_last();
        assert(forall|i: int| 0 <= i < before.len() ==> before[i] == tags[i]);
        lemma_normal_is_kept(before);
        let last = tags.len() - 1;
        assert(tags[last] == tags.last());
        if has_tag(before, tags.last()) {
            let i = choose|i: int|
                0 <= i < before.len() && lowercase_text(#[trigger] before[i]) == lowercase_text(
                    tags.last(),
                );
            assert(lowercase_text(tags[i]) == lowercase_text(tags[last]));
        }
        assert(before.push(tags.last()) =~= tags);
    } else {
        assert(normalized(tags) =~= tags);
    }
}

/// Sameness of connections is an equivalence.
pub proof fn same_connection_is_an_equivalence(a: ProfileModel, b: ProfileModel, c: ProfileModel)
    ensures
        a.same_connection(a),
        a.same_connection(b) ==> b.same_connection(a),
        a.same_connection(b) && b.same_connection(c) ==> a.same_connection(c),
{
}

/// Editing the alias, the notes, the tags, the retention or the tuning of a host leaves its
/// connection what it was.
pub proof fn metadata_edits_keep_the_connection(
    host: ProfileModel,
    alias: Seq<char>,
    description: Seq<char>,
    tags: Seq<Seq<char>>,
    auth_persistence: AuthPersistence,
    advanced: AdvancedModel,
)
    ensures
        (ProfileModel { alias, description, tags, auth_persistence, advanced, ..host }).same_connection(host),
{
}

pub fn normalize_tags(tags: &Vec<String>) -> (r: Vec<String>)
    ensures
        texts(r@) == normalized(texts(tags@)),
{
    let mut kept: Vec<String> = Vec::new();
    let mut seen: Vec<String> = Vec::new();
    let mut i: usize = 0;
    assert(texts(kept@) =~= normalized(texts(tags@).take(0)));
    while i < tags.len()
        invariant
            i <= tags@.len(),
            texts(kept@) == normalized(texts(tags@).take(i as int)),
            seen@.len() == kept@.len(),
            forall|j: int| 0 <= j < seen@.len() ==> #[trigger] seen@[j]@ == lowercase_text(
                kept@[j]@,
            ),
        decreases tags@.len() - i,
    {
        let ghost before = texts(tags@).take(i as int);
        let ghost after = texts(tags@).take(i + 1);
        assert(after.drop_last() =~= before);
        let tag = trim(tags[i].as_str());
        let folded = lowercase(tag);
        let known = holds_text(&seen, folded.as_str());
        proof {
            let kept_texts = texts(kept@);
            if known {
                let j = choose|j: int| 0 <= j < seen@.len() && #[trigger] seen@[j]@ == folded@;
                assert(lowercase_text(kept_texts[j]) == lowercase_text(tag@));
            } else if has_tag(kept_texts, tag@) {
                let j = choose|j: int|
                    0 <= j < kept_texts.len() && lowercase_text(#[trigger] kept_texts[j])
                        == lowercase_text(tag@);
                assert(seen@[j]@ == folded@);
            }
        }
        if !tag.is_empty() && !known {
            let ghost old_kept = kept@;
            kept.push(tag.to_owned());
            seen.push(folded);
            assert(texts(kept@) =~= texts(old_kept).push(tag@));
        }
        i = i + 1;
    }
    assert(texts(tags@).take(tags@.len() as int) =~= texts(tags@));
    kept
}

/// Whether the text is in the list.
pub fn holds_text(list: &Vec<String>, wanted: &str) -> (r: bool)
    ensures
        r == exists|j: int| 0 <= j < list@.len() && #[trigger] list@[j]@ == wanted@,
{
    let mut i: usize = 0;
    while i < list.len()
        invariant
            i <= list@.len(),
            forall|j: int| 0 <= j < i ==> #[trigger] list@[j]@ != wanted@,
        decreases list@.len() - i,
    {
        if same_text(list[i].as_str(), wanted) {
            return true;
        }
        i = i + 1;
    }
    false
}

/// The first host that carries the alias, with ASCII case ignored.
pub open spec fn alias_owner(hosts: Seq<ProfileModel>, alias: Seq<char>, at: int) -> bool {
    &&& 0 <= at < hosts.len()
    &&& same_ignoring_case(hosts[at].alias, alias)
    &&& forall|i: int| 0 <= i < at ==> !same_ignoring_case(#[trigger] hosts[i].alias, alias)
}

/// Some host carries the alias, with ASCII case ignored.
pub open spec fn alias_taken(hosts: Seq<ProfileModel>, alias: Seq<char>) -> bool {
    exists|i: int| 0 <= i < hosts.len() && same_ignoring_case(#[trigger] hosts[i].alias, alias)
}

/// Alias lookup shared by the host store and the tools: ASCII case and white space around the
/// alias are ignored. The position of the first match is returned.
pub fn find_alias_index(hosts: &[HostProfile], alias: &str) -> (r: Option<usize>)
    ensures
        match r {
            Some(at) => alias_owner(models(hosts@), trimmed(alias@), at as int),
            None => !alias_taken(models(hosts@), trimmed(alias@)),
        },
{
    let wanted = trim(alias);
    let mut i: usize = 0;
    while i < hosts.len()
        invariant
            i <= hosts@.len(),
            wanted@ == trimmed(alias@),
            forall|j: int|
                0 <= j < i ==> !same_ignoring_case(#[trigger] models(hosts@)[j].alias, wanted@),
        decreases hosts@.len() - i,
    {
        if eq_ignore_case(hosts[i].alias.as_str(), wanted) {
            return Some(i);
        }
        i = i + 1;
    }
    None
}

/// The host with the alias, if there is one.
pub fn find_alias<'a>(hosts: &'a [HostProfile], alias: &str) -> (r: Option<&'a HostProfile>)
    ensures
        match r {
            Some(host) => exists|at: int|
                #[trigger] alias_owner(models(hosts@), trimmed(alias@), at) && *host == hosts@[at],
            None => !alias_taken(models(hosts@), trimmed(alias@)),
        },
{
    match find_alias_index(hosts, alias) {
        Some(at) => Some(&hosts[at]),
        None => None,
    }
}

/// Position of the first host with the identity; the number of hosts when there is none.
pub open spec fn index_of_id(hosts: Seq<ProfileModel>, id: Id) -> int
    decreases hosts.len(),
{
    if hosts.len() == 0 {
        0
    } else if hosts[0].id == id {
        0
    } else {
        1 + index_of_id(hosts.skip(1), id)
    }
}

/// The first host with the identity.
pub open spec fn host_with_id(hosts: Seq<ProfileModel>, id: Id) -> Option<ProfileModel> {
    if index_of_id(hosts, id) < hosts.len() {
        Some(hosts[index_of_id(hosts, id)])
    } else {
        None
    }
}

/// `index_of_id` is the least position that holds the identity.
pub proof fn lemma_index_of_id(hosts: Seq<ProfileModel>, id: Id, at: int)
    requires
        0 <= at <= hosts.len(),
        forall|i: int| 0 <= i < at ==> #[trigger] hosts[i].id != id,
        at < hosts.len() ==> hosts[at].id == id,
    ensures
        index_of_id(hosts, id) == at,
    decreases hosts.len(),
{
    if hosts.len() > 0 && at > 0 {
        let rest = hosts.skip(1);
        assert(hosts[0].id != id);
        assert forall|i: int| 0 <= i < at - 1 implies #[trigger] rest[i].id != id by {
            assert(rest[i] == hosts[i + 1]);
        }
        lemma_index_of_id(rest, id, at - 1);
    }
}

/// Position of the first host with the identity.
pub fn find_id(hosts: &[HostProfile], id: Id) -> (r: Option<usize>)
    ensures
        match r {
            Some(at) => at < hosts@.len() && at == index_of_id(models(hosts@), id) && hosts@[at as int].id == id,
            None => index_of_id(models(hosts@), id) == hosts@.len(),
        },
{
    let mut i: usize = 0;
    while i < hosts.len()
        invariant
            i <= hosts@.len(),
            forall|j: int| 0 <= j < i ==> #[trigger] models(hosts@)[j].id != id,
        decreases hosts@.len() - i,
    {
        if hosts[i].id == id {
            proof {
                lemma_index_of_id(models(hosts@), id, i as int);
            }
            return Some(i);
        }
        i = i + 1;
    }
    proof {
        lemma_index_of_id(models(hosts@), id, i as int);
    }
    None
}

/// What a search looks for and the tags that it asks for.
#[derive(Debug, Default, PartialEq, Eq)]
pub struct HostFilter {
    pub search: String,
    pub tags: Vec<String>,
}

/// The text holds the search term when letter case is ignored.
pub open spec fn text_found(value: Seq<char>, term: Seq<char>) -> bool {
    contains_text(lowercase_text(value), term)
}

/// One of the searched fields holds the term: alias, address, user name, description or a tag.
pub open spec fn search_hit(host: ProfileModel, term: Seq<char>) -> bool {
    ||| text_found(host.alias, term)
    ||| text_found(host.address, term)
    ||| text_found(host.username, term)
    ||| text_found(host.description, term)
    ||| exists|i: int| 0 <= i < host.tags.len() && text_found(#[trigger] host.tags[i], term)
}

/// A tag of the host equals the given one without case and white space.
pub open spec fn carries_tag(host: ProfileModel, tag: Seq<char>) -> bool {
    exists|i: int|
        0 <= i < host.tags.len() && lowercase_text(trimmed(#[trigger] host.tags[i]))
            == lowercase_text(trimmed(tag))
}

/// A required tag is blank, or the host carries it.
pub open spec fn tag_hit(host: ProfileModel, required: Seq<char>) -> bool {
    trimmed(required).len() == 0 || carries_tag(host, required)
}

/// The host is shown: the search term is blank or found, and every required tag is there.
pub open spec fn shows(search: Seq<char>, tags: Seq<Seq<char>>, host: ProfileModel) -> bool {
    &&& trimmed(search).len() == 0 || search_hit(host, lowercase_text(trimmed(search)))
    &&& forall|i: int| 0 <= i < tags.len() ==> tag_hit(host, #[trigger] tags[i])
}

fn tag_present(host: &HostProfile, required: &str) -> (r: bool)
    ensures
        r == tag_hit(host@, required@),
{
    let wanted = lowercase(trim(required));
    if wanted.as_str().is_empty() {
        return true;
    }
    let mut i: usize = 0;
    while i < host.tags.len()
        invariant
            i <= host.tags@.len(),
            wanted@ == lowercase_text(trimmed(required@)),
            forall|j: int|
                0 <= j < i ==> lowercase_text(trimmed(#[trigger] host@.tags[j])) != wanted@,
        decreases host.tags@.len() - i,
    {
        let tag = lowercase(trim(host.tags[i].as_str()));
        if same_text(tag.as_str(), wanted.as_str()) {
            assert(lowercase_text(trimmed(host@.tags[i as int])) == wanted@);
            return true;
        }
        i = i + 1;
    }
    false
}

fn found_in(value: &str, term: &str) -> (r: bool)
    ensures
        r == text_found(value@, term@),
{
    let folded = lowercase(value);
    contains(folded.as_str(), term)
}

fn any_tag_found(host: &HostProfile, term: &str) -> (r: bool)
    ensures
        r == exists|i: int|
            0 <= i < host@.tags.len() && text_found(#[trigger] host@.tags[i], term@),
{
    let mut i: usize = 0;
    while i < host.tags.len()
        invariant
            i <= host.tags@.len(),
            forall|j: int| 0 <= j < i ==> !text_found(#[trigger] host@.tags[j], term@),
        decreases host.tags@.len() - i,
    {
        if found_in(host.tags[i].as_str(), term) {
            assert(text_found(host@.tags[i as int], term@));
            return true;
        }
        i = i + 1;
    }
    false
}

impl HostFilter {
    pub open spec fn shows(self, host: ProfileModel) -> bool {
        shows(self.search@, texts(self.tags@), host)
    }

    pub fn matches(&self, host: &HostProfile) -> (r: bool)
        ensures
            r == self.shows(host@),
    {
        let term = lowercase(trim(self.search.as_str()));
        let found = term.as_str().is_empty() || found_in(host.alias.as_str(), term.as_str())
            || found_in(host.address.as_str(), term.as_str()) || found_in(
            host.username.as_str(),
            term.as_str(),
        ) || found_in(host.description.as_str(), term.as_str()) || any_tag_found(
            host,
            term.as_str(),
        );
        if !found {
            return false;
        }
        let mut i: usize = 0;
        while i < self.tags.len()
            invariant
                i <= self.tags@.len(),
                forall|j: int| 0 <= j < i ==> tag_hit(host@, #[trigger] texts(self.tags@)[j]),
            decreases self.tags@.len() - i,
        {
            if !tag_present(host, self.tags[i].as_str()) {
                assert(!tag_hit(host@, texts(self.tags@)[i as int]));
                return false;
            }
            i = i + 1;
        }
        true
    }
}

/// Jump chains are at most this many hosts long.
pub const MAX_CHAIN_HOSTS: usize = 8;

/// `chain` is how `target` is reached: from a host with no jump host, through the first host
/// with each named identity, to the target; SSH only, no host twice, and not too long.
pub open spec fn is_chain(
    target: ProfileModel,
    hosts: Seq<ProfileModel>,
    chain: Seq<ProfileModel>,
) -> bool {
    &&& 1 <= chain.len() <= MAX_CHAIN_HOSTS
    &&& chain.last() == target
    &&& chain[0].jump_host is None
    &&& forall|i: int|
        0 < i < chain.len() ==> (#[trigger] chain[i]).jump_host is Some && host_with_id(
            hosts,
            chain[i].jump_host->0,
        ) == Some(chain[i - 1])
    &&& forall|i: int| 0 <= i < chain.len() ==> (#[trigger] chain[i]).protocol == Protocol::Ssh
    &&& forall|i: int, j: int|
        0 <= i < j < chain.len() ==> (#[trigger] chain[i]).id != (#[trigger] chain[j]).id
}

/// The target can be reached.
pub open spec fn has_chain(target: ProfileModel, hosts: Seq<ProfileModel>) -> bool {
    exists|chain: Seq<ProfileModel>| is_chain(target, hosts, chain)
}

/// `path` walks from the target along the jump hosts.
spec fn is_walk(target: ProfileModel, hosts: Seq<ProfileModel>, path: Seq<ProfileModel>) -> bool {
    &&& path.len() >= 1
    &&& path[0] == target
    &&& forall|i: int|
        0 <= i < path.len() - 1 ==> (#[trigger] path[i]).jump_host is Some && host_with_id(
            hosts,
            path[i].jump_host->0,
        ) == Some(path[i + 1])
}

/// A chain, read backwards, begins with every walk from its target.
proof fn lemma_walk_in_chain(
    target: ProfileModel,
    hosts: Seq<ProfileModel>,
    path: Seq<ProfileModel>,
    chain: Seq<ProfileModel>,
    i: int,
)
    requires
        is_walk(target, hosts, path),
        is_chain(target, hosts, chain),
        0 <= i < path.len(),
    ensures
        i < chain.len(),
        path[i] == chain[chain.len() - 1 - i],
    decreases i,
{
    if i > 0 {
        lemma_walk_in_chain(target, hosts, path, chain, i - 1);
        assert(path[i - 1].jump_host is Some);
        assert(chain.len() - i > 0);
        assert(chain[chain.len() - i].jump_host is Some);
    }
}

/// There is at most one chain to a target.
pub proof fn chain_is_unique(
    target: ProfileModel,
    hosts: Seq<ProfileModel>,
    a: Seq<ProfileModel>,
    b: Seq<ProfileModel>,
)
    requires
        is_chain(target, hosts, a),
        is_chain(target, hosts, b),
    ensures
        a == b,
{
    let path = a.reverse();
    assert(is_walk(target, hosts, path)) by {
        assert forall|i: int| 0 <= i < path.len() - 1 implies (#[trigger] path[i]).jump_host is Some
            && host_with_id(hosts, path[i].jump_host->0) == Some(path[i + 1]) by {
            assert(path[i] == a[a.len() - 1 - i]);
            assert(path[i + 1] == a[a.len() - 1 - (i + 1)]);
        }
    }
    lemma_walk_in_chain(target, hosts, path, b, path.len() - 1);
    assert(path[path.len() - 1] == a[0]);
    let k = b.len() - a.len();
    assert(b[k] == a[0]);
    if k > 0 {
        assert(b[k].jump_host is Some);
    }
    assert forall|i: int| 0 <= i < a.len() implies a[i] == b[i] by {
        lemma_walk_in_chain(target, hosts, path, b, a.len() - 1 - i);
    }
    assert(a =~= b);
}

/// The hosts to connect through, outermost first, ending with the target.
pub fn resolve_ssh_chain<'a>(target: &'a HostProfile, hosts: &'a [HostProfile]) -> (r: Result<
    Vec<&'a HostProfile>,
    ValidationIssue,
>)
    ensures
        match r {
            Ok(chain) => is_chain(target@, models(hosts@), models_of(chain@)),
            Err(issue) => if target@.protocol == Protocol::Ssh {
                issue == ValidationIssue::Chain && !has_chain(target@, models(hosts@))
            } else {
                issue == ValidationIssue::TelnetChain
            },
        },
{
    if target.protocol != Protocol::Ssh {
        return Err(ValidationIssue::TelnetChain);
    }
    let ghost all = models(hosts@);
    let mut path: Vec<&'a HostProfile> = Vec::new();
    path.push(target);
    let mut last: &'a HostProfile = target;
    while last.jump_host.is_some()
        invariant
            all == models(hosts@),
            1 <= path@.len() <= MAX_CHAIN_HOSTS,
            path@.last() == last,
            is_walk(target@, all, models_of(path@)),
            forall|i: int| 0 <= i < path@.len() ==> (#[trigger] path@[i]).protocol == Protocol::Ssh,
            forall|i: int, j: int|
                0 <= i < j < path@.len() ==> (#[trigger] path@[i]).id != (#[trigger] path@[j]).id,
        decreases MAX_CHAIN_HOSTS - path@.len(),
    {
        let jump_id: Id = last.jump_host.unwrap();
        let ghost walk = models_of(path@);
        let ghost n = walk.len() as int;
        proof {
            assert(walk[n - 1] == last@);
            assert forall|chain: Seq<ProfileModel>|
                is_chain(target@, all, chain) implies chain.len() > n && chain[chain.len() - 1 - n]
                == host_with_id(all, jump_id)->0 && host_with_id(all, jump_id) is Some by {
                lemma_walk_in_chain(target@, all, walk, chain, n - 1);
                assert(chain[chain.len() - n].jump_host is Some);
            }
        }
        let jump = match find_id(hosts, jump_id) {
            Some(at) => &hosts[at],
            None => {
                return Err(ValidationIssue::Chain);
            },
        };
        if path.len() >= MAX_CHAIN_HOSTS || jump.protocol != Protocol::Ssh {
            return Err(ValidationIssue::Chain);
        }
        let mut i: usize = 0;
        while i < path.len()
            invariant
                i <= path@.len(),
                all == models(hosts@),
                walk == models_of(path@),
                n == walk.len(),
                is_walk(target@, all, walk),
                host_with_id(all, jump_id) == Some(jump@),
                forall|chain: Seq<ProfileModel>|
                    is_chain(target@, all, chain) ==> chain.len() > n && chain[chain.len() - 1 - n]
                        == jump@,
                target@.protocol == Protocol::Ssh,
                forall|j: int| 0 <= j < i ==> (#[trigger] path@[j]).id != jump.id,
            decreases path@.len() - i,
        {
            if path[i].id == jump.id {
                proof {
                    assert forall|chain: Seq<ProfileModel>|
                        !is_chain(target@, all, chain) by {
                        if is_chain(target@, all, chain) {
                            lemma_walk_in_chain(target@, all, walk, chain, i as int);
                            assert(chain[chain.len() - 1 - i].id == chain[chain.len() - 1 - n].id);
                        }
                    }
                }
                return Err(ValidationIssue::Chain);
            }
            i = i + 1;
        }
        path.push(jump);
        proof {
            let longer = models_of(path@);
            assert forall|i: int| 0 <= i < longer.len() - 1 implies (
            #[trigger] longer[i]).jump_host is Some && host_with_id(all, longer[i].jump_host->0)
                == Some(longer[i + 1]) by {
                if i < n - 1 {
                    assert(longer[i] == walk[i]);
                    assert(longer[i + 1] == walk[i + 1]);
                }
            }
        }
        last = jump;
    }
    let mut chain: Vec<&'a HostProfile> = Vec::new();
    let mut left: usize = path.len();
    while left > 0
        invariant
            left <= path@.len(),
            chain@.len() == path@.len() - left,
            forall|i: int|
                0 <= i < chain@.len() ==> #[trigger] chain@[i] == path@[path@.len() - 1 - i],
        decreases left,
    {
        left = left - 1;
        chain.push(path[left]);
    }
    proof {
        let walk = models_of(path@);
        let result = models_of(chain@);
        assert(forall|i: int| 0 <= i < result.len() ==> #[trigger] result[i] == walk[walk.len() - 1 - i]);
        assert forall|i: int| 0 < i < result.len() implies (#[trigger] result[i]).jump_host is Some
            && host_with_id(all, result[i].jump_host->0) == Some(result[i - 1]) by {
            let k = walk.len() - 1 - i;
            assert(walk[k].jump_host is Some);
            assert(walk[k + 1] == result[i - 1]);
        }
        assert forall|i: int, j: int| 0 <= i < j < result.len() implies (#[trigger] result[i]).id
            != (#[trigger] result[j]).id by {
            assert(path@[path@.len() - 1 - j].id != path@[path@.len() - 1 - i].id);
        }
    }
    Ok(chain)
}

/// The profile with the candidate as its jump host.
pub open spec fn through(target: ProfileModel, candidate: ProfileModel) -> ProfileModel {
    ProfileModel { protocol: Protocol::Ssh, jump_host: Some(candidate.id), ..target }
}

/// Only verified SSH hosts other than the target serve as jump hosts, and only where the chain
/// through them resolves.
pub fn can_use_as_jump(
    candidate: &HostProfile,
    target: &HostProfile,
    hosts: &[HostProfile],
) -> (r: bool)
    ensures
        r == (candidate@.id != target@.id && candidate@.protocol == Protocol::Ssh
            && candidate@.verified && has_chain(through(target@, candidate@), models(hosts@))),
{
    if candidate.id == target.id || candidate.protocol != Protocol::Ssh || !candidate.verified {
        return false;
    }
    let mut proposed = target.clone();
    proposed.protocol = Protocol::Ssh;
    proposed.jump_host = Some(candidate.id);
    assert(proposed@ =~= through(target@, candidate@));
    resolve_ssh_chain(&proposed, hosts).is_ok()
}

/// A profile is refused for the first of these reasons that holds, and accepted where none does:
/// no alias, no address, no user name, no port, no key file where one is needed, Telnet behind a
/// jump host, an idle time beyond a day, or tuning out of its bounds.
pub proof fn profiles_are_refused_for_a_reason(host: ProfileModel)
    ensures
        host.issue() is None <==> {
            &&& trimmed(host.alias).len() > 0
            &&& trimmed(host.address).len() > 0
            &&& trimmed(host.username).len() > 0
            &&& host.port != 0
            &&& host.protocol == Protocol::Ssh && host.ssh_auth == SshAuth::PrivateKey ==> trimmed(
                host.private_key_path,
            ).len() > 0
            &&& host.protocol == Protocol::Telnet ==> host.jump_host is None
            &&& host.auth_persistence matches AuthPersistence::Idle { minutes } ==> 1 <= minutes
                <= 1440
            &&& host.advanced.max_channels matches Some(n) ==> 1 <= n <= 16
            &&& host.advanced.keepalive_s matches Some(n) ==> 10 <= n <= 300
            &&& host.advanced.connect_timeout_s matches Some(n) ==> n >= 1
            &&& host.advanced.command_timeout_s matches Some(n) ==> n >= 1
        },
        host.issue() == Some(ValidationIssue::Alias) <==> trimmed(host.alias).len() == 0,
        host.issue() == Some(ValidationIssue::Address) ==> trimmed(host.address).len() == 0,
        host.issue() == Some(ValidationIssue::Username) ==> trimmed(host.username).len() == 0,
        host.issue() == Some(ValidationIssue::Port) ==> host.port == 0,
        host.issue() == Some(ValidationIssue::PrivateKey) ==> trimmed(host.private_key_path).len()
            == 0 && host.ssh_auth == SshAuth::PrivateKey,
        host.issue() == Some(ValidationIssue::TelnetChain) ==> host.protocol == Protocol::Telnet
            && host.jump_host is Some,
{
}

/// A host without a jump host is reached by itself. One behind a jump host is reached through all
/// that reach that one, unless it is among them, or more than eight hosts would be on the way.
pub proof fn chains_grow_by_their_target(
    target: ProfileModel,
    hosts: Seq<ProfileModel>,
    jump: ProfileModel,
    chain: Seq<ProfileModel>,
)
    requires
        target.protocol == Protocol::Ssh,
    ensures
        target.jump_host is None ==> is_chain(target, hosts, seq![target]),
        target.jump_host == Some(jump.id) && host_with_id(hosts, jump.id) == Some(jump) && is_chain(
            jump,
            hosts,
            chain,
        ) && chain.len() < 8 && (forall|i: int|
            0 <= i < chain.len() ==> (#[trigger] chain[i]).id != target.id) ==> is_chain(
            target,
            hosts,
            chain.push(target),
        ),
{
    if target.jump_host == Some(jump.id) && host_with_id(hosts, jump.id) == Some(jump) && is_chain(
        jump,
        hosts,
        chain,
    ) && chain.len() < 8 && (forall|i: int|
        0 <= i < chain.len() ==> (#[trigger] chain[i]).id != target.id) {
        let longer = chain.push(target);
        assert forall|i: int| 0 < i < longer.len() implies (#[trigger] longer[i]).jump_host is Some
            && host_with_id(hosts, longer[i].jump_host->0) == Some(longer[i - 1]) by {
            if i < chain.len() {
                assert(longer[i] == chain[i] && longer[i - 1] == chain[i - 1]);
            } else {
                assert(longer[i - 1] == chain.last());
            }
        }
    }
}

/// Where a target can be reached, at most eight hosts are on the way, all of them speak SSH, none
/// is there twice, the first needs no jump host and the last is the target, and every other one is
/// the jump host of the next.
pub proof fn chains_lead_to_their_target(
    target: ProfileModel,
    hosts: Seq<ProfileModel>,
    chain: Seq<ProfileModel>,
    i: int,
)
    requires
        is_chain(target, hosts, chain),
        0 <= i < chain.len(),
    ensures
        1 <= chain.len() <= 8,
        chain[chain.len() - 1] == target,
        chain[0].jump_host is None,
        chain[i].protocol == Protocol::Ssh,
        i > 0 ==> chain[i].jump_host == Some(chain[i - 1].id) && hosts.contains(chain[i - 1]),
        forall|j: int| 0 <= j < chain.len() && j != i ==> (#[trigger] chain[j]).id != chain[i].id,
{
    if i > 0 {
        let id = chain[i].jump_host->0;
        lemma_first_with_id(hosts, id);
        assert(host_with_id(hosts, id) == Some(chain[i - 1]));
        assert(hosts[index_of_id(hosts, id)] == chain[i - 1]);
    }
}

proof fn lemma_first_with_id(hosts: Seq<ProfileModel>, id: Id)
    ensures
        0 <= index_of_id(hosts, id) <= hosts.len(),
        index_of_id(hosts, id) < hosts.len() ==> hosts[index_of_id(hosts, id)].id == id,
        forall|i: int| 0 <= i < index_of_id(hosts, id) ==> (#[trigger] hosts[i]).id != id,
    decreases hosts.len(),
{
    if hosts.len() > 0 && hosts[0].id != id {
        let rest = hosts.skip(1);
        lemma_first_with_id(rest, id);
        assert forall|i: int| 0 <= i < index_of_id(hosts, id) implies (#[trigger] hosts[i]).id
            != id by {
            if i > 0 {
                assert(rest[i - 1] == hosts[i]);
            }
        }
    }
}

/// A host is found by its identity exactly where one has it; the first that does is the one.
pub proof fn hosts_are_found_by_identity(hosts: Seq<ProfileModel>, id: Id)
    ensures
        host_with_id(hosts, id) is Some <==> exists|i: int|
            0 <= i < hosts.len() && (#[trigger] hosts[i]).id == id,
        host_with_id(hosts, id) matches Some(host) ==> host.id == id && hosts.contains(host),
{
    lemma_first_with_id(hosts, id);
    if host_with_id(hosts, id) is Some {
        assert(hosts[index_of_id(hosts, id)].id == id);
    }
    if exists|i: int| 0 <= i < hosts.len() && (#[trigger] hosts[i]).id == id {
        let i = choose|i: int| 0 <= i < hosts.len() && (#[trigger] hosts[i]).id == id;
        assert(index_of_id(hosts, id) <= i);
    }
}

/// A search term is looked for in the alias, the address, the user name, the notes and the tags of
/// a host, without regard to case; a blank one finds every host.
pub proof fn a_search_looks_everywhere(search: Seq<char>, host: ProfileModel)
    ensures
        trimmed(search).len() == 0 ==> shows(search, Seq::empty(), host),
        trimmed(search).len() > 0 ==> (shows(search, Seq::empty(), host) <==> contains_text(
            lowercase_text(host.alias),
            lowercase_text(trimmed(search)),
        ) || contains_text(lowercase_text(host.address), lowercase_text(trimmed(search)))
            || contains_text(lowercase_text(host.username), lowercase_text(trimmed(search)))
            || contains_text(lowercase_text(host.description), lowercase_text(trimmed(search))) || (
        exists|i: int|
            0 <= i < host.tags.len() && contains_text(
                lowercase_text(#[trigger] host.tags[i]),
                lowercase_text(trimmed(search)),
            ))),
{
}

/// Every further tag that is asked for narrows what is shown to the hosts that carry it; a blank
/// one asks for nothing.
pub proof fn every_tag_is_required(
    search: Seq<char>,
    tags: Seq<Seq<char>>,
    tag: Seq<char>,
    host: ProfileModel,
)
    ensures
        shows(search, tags.push(tag), host) <==> shows(search, tags, host) && (trimmed(tag).len()
            == 0 || exists|i: int|
            0 <= i < host.tags.len() && lowercase_text(trimmed(#[trigger] host.tags[i]))
                == lowercase_text(trimmed(tag))),
{
    let more = tags.push(tag);
    if shows(search, more, host) {
        assert(tag_hit(host, more[tags.len() as int]));
        assert forall|i: int| 0 <= i < tags.len() implies tag_hit(host, #[trigger] tags[i]) by {
            assert(more[i] == tags[i]);
        }
    }
    if shows(search, tags, host) && tag_hit(host, tag) {
        assert forall|i: int| 0 <= i < more.len() implies tag_hit(host, #[trigger] more[i]) by {
            if i < tags.len() {
                assert(more[i] == tags[i]);
            }
        }
    }
}

/// Two profiles have the same connection exactly where they agree in address, port, user name,
/// protocol, way of logging in, key file, agent key and jump host.
pub proof fn a_changed_connection_is_noticed(a: ProfileModel, b: ProfileModel)
    ensures
        trimmed(a.address) != trimmed(b.address) ==> !a.same_connection(b),
        a.port != b.port ==> !a.same_connection(b),
        trimmed(a.username) != trimmed(b.username) ==> !a.same_connection(b),
        a.protocol != b.protocol ==> !a.same_connection(b),
        a.ssh_auth != b.ssh_auth ==> !a.same_connection(b),
        trimmed(a.private_key_path) != trimmed(b.private_key_path) ==> !a.same_connection(b),
        trimmed(a.agent_key_fingerprint) != trimmed(b.agent_key_fingerprint)
            ==> !a.same_connection(b),
        a.jump_host != b.jump_host ==> !a.same_connection(b),
{
}

/// What a prefill gives replaces what the profile has, field by field; what it leaves out stays.
pub proof fn prefills_replace_what_they_give(profile: ProfileModel, prefill: PrefillModel)
    ensures
        ({
            let after = profile.prefilled(prefill);
            &&& after.alias == match prefill.alias {
                Some(text) => text,
                None => profile.alias,
            }
            &&& after.address == match prefill.address {
                Some(text) => text,
                None => profile.address,
            }
            &&& after.username == match prefill.username {
                Some(text) => text,
                None => profile.username,
            }
            &&& after.private_key_path == match prefill.private_key_path {
                Some(text) => text,
                None => profile.private_key_path,
            }
            &&& after.agent_key_fingerprint == match prefill.agent_key_fingerprint {
                Some(text) => text,
                None => profile.agent_key_fingerprint,
            }
            &&& prefill.protocol matches Some(protocol) ==> after.protocol == protocol
            &&& prefill.protocol is None ==> after.protocol == profile.protocol
            &&& prefill.ssh_auth matches Some(auth) ==> after.ssh_auth == auth
            &&& prefill.ssh_auth is None ==> after.ssh_auth == profile.ssh_auth
            &&& prefill.port matches Some(port) ==> after.port == port
            &&& prefill.port is None && prefill.protocol is None ==> after.port == profile.port
            &&& prefill.port is None && prefill.protocol == Some(Protocol::Ssh) ==> after.port == 22
            &&& prefill.port is None && prefill.protocol == Some(Protocol::Telnet) ==> after.port
                == 23
            &&& after.jump_host == profile.jump_host
            &&& after.verified == profile.verified
        }),
{
}

/// Tags keep their first spelling and their order: a further one is added behind the others,
/// without the white space around it, unless it is blank or there in some case.
pub proof fn tags_are_added_in_order(tags: Seq<Seq<char>>, tag: Seq<char>)
    ensures
        trimmed(tag).len() == 0 ==> normalized(tags.push(tag)) == normalized(tags),
        (exists|i: int|
            0 <= i < normalized(tags).len() && lowercase_text(#[trigger] normalized(tags)[i])
                == lowercase_text(trimmed(tag))) ==> normalized(tags.push(tag)) == normalized(tags),
        trimmed(tag).len() > 0 && !(exists|i: int|
            0 <= i < normalized(tags).len() && lowercase_text(#[trigger] normalized(tags)[i])
                == lowercase_text(trimmed(tag))) ==> normalized(tags.push(tag)) == normalized(
            tags,
        ).push(trimmed(tag)),
        normalized(Seq::empty()).len() == 0,
{
    assert(tags.push(tag).drop_last() =~= tags);
}

/// A session is kept as its host says: not at all, without end, or for so many minutes.
pub proof fn sessions_are_kept_as_hosts_say(host: ProfileModel, minutes: u32)
    requires
        1 <= minutes <= 1440,
    ensures
        AuthPersistence::PerCall.kept_for() is None,
        AuthPersistence::Session.kept_for() == Some(Retention::Session),
        (AuthPersistence::Idle { minutes }).kept_for() == Some(
            Retention::Idle((minutes * 60) as u64),
        ),
        host.protocol == Protocol::Telnet ==> host.persistence() == AuthPersistence::PerCall,
        host.protocol == Protocol::Ssh ==> host.persistence() == host.auth_persistence,
{
}

/// The first host that has an alias, whatever its case, is the one that it names.
pub proof fn aliases_name_the_first_host(hosts: Seq<ProfileModel>, alias: Seq<char>, at: int)
    requires
        0 <= at < hosts.len(),
        hosts[at].alias == alias,
    ensures
        alias_taken(hosts, alias),
        (forall|i: int|
            0 <= i < at ==> !same_ignoring_case((#[trigger] hosts[i]).alias, alias))
            ==> alias_owner(hosts, alias, at),
{
    assert(same_ignoring_case(hosts[at].alias, alias));
}

/// A new profile is an SSH host on its usual port with a password, that nothing is known of and
/// that keeps no session.
pub proof fn new_profiles_are_plain(id: Id)
    ensures
        ProfileModel::blank(id).id == id,
        ProfileModel::blank(id).port == 22,
        ProfileModel::blank(id).protocol == Protocol::Ssh,
        ProfileModel::blank(id).ssh_auth == SshAuth::Password,
        ProfileModel::blank(id).address.len() == 0,
        ProfileModel::blank(id).username.len() == 0,
        ProfileModel::blank(id).tags.len() == 0,
        ProfileModel::blank(id).host_fingerprint is None,
        ProfileModel::blank(id).jump_host is None,
        !ProfileModel::blank(id).verified,
        ProfileModel::blank(id).auth_persistence == AuthPersistence::PerCall,
{
}

/// Settings are in range exactly where every one that is set is: one to sixteen channels, ten
/// seconds to five minutes between signs of life, and a second at least for each timeout.
pub proof fn settings_have_their_ranges(advanced: AdvancedModel)
    ensures
        advanced.in_range() <==> {
            &&& advanced.max_channels is Some ==> 1 <= advanced.max_channels->0 <= 16
            &&& advanced.keepalive_s is Some ==> 10 <= advanced.keepalive_s->0 <= 300
            &&& advanced.connect_timeout_s is Some ==> advanced.connect_timeout_s->0 >= 1
            &&& advanced.command_timeout_s is Some ==> advanced.command_timeout_s->0 >= 1
        },
{
}

/// Of two retentions the shorter one is the stricter, and any time is stricter than none.
pub proof fn shorter_times_are_stricter(a: Retention, x: u64, y: u64)
    ensures
        stricter(Retention::Session, a) == a,
        stricter(a, Retention::Session) == a,
        x <= y ==> stricter(Retention::Idle(x), Retention::Idle(y)) == Retention::Idle(x),
        y <= x ==> stricter(Retention::Idle(x), Retention::Idle(y)) == Retention::Idle(y),
{
}

} // verus!

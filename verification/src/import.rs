//! Hosts from a template file: all of them, or none.
use vstd::prelude::*;

use crate::credentials::CredentialKind;
use crate::id::{all_random, is_random_id, Id};
use crate::json::{list, member, object, pad, quoted, Lines};
use crate::model::{
    has_chain, holds_text, models, normalize_tags, normalized, resolve_ssh_chain, HostProfile,
    ProfileModel, Protocol, SshAuth,
};
use crate::secret::Secret;
use crate::storage::copy_hosts;
use crate::text::{
    decimal, decimal_string, optional_text, same_text, texts, to_ascii_lower, trim, trimmed,
};
use crate::tool::alias_key;

verus! {

pub const TEMPLATE_VERSION: u32 = 1;

/// A template as it was read.
#[derive(Debug)]
pub struct HostImportTemplate {
    pub version: u32,
    pub hosts: Vec<ImportHost>,
}

/// A host of a template. There is no place for a secret in it.
#[derive(Debug)]
pub struct ImportHost {
    pub alias: String,
    pub address: String,
    pub port: Option<u16>,
    pub username: String,
    pub protocol: Protocol,
    pub ssh_auth: SshAuth,
    pub private_key_path: String,
    pub jump_host: Option<String>,
    pub description: String,
    pub tags: Vec<String>,
}

pub struct ImportModel {
    pub alias: Seq<char>,
    pub address: Seq<char>,
    pub port: Option<u16>,
    pub username: Seq<char>,
    pub protocol: Protocol,
    pub ssh_auth: SshAuth,
    pub private_key_path: Seq<char>,
    pub jump_host: Option<Seq<char>>,
    pub description: Seq<char>,
    pub tags: Seq<Seq<char>>,
}

impl View for ImportHost {
    type V = ImportModel;

    open spec fn view(&self) -> ImportModel {
        ImportModel {
            alias: self.alias@,
            address: self.address@,
            port: self.port,
            username: self.username@,
            protocol: self.protocol,
            ssh_auth: self.ssh_auth,
            private_key_path: self.private_key_path@,
            jump_host: optional_text(self.jump_host),
            description: self.description@,
            tags: texts(self.tags@),
        }
    }
}

pub open spec fn import_models(list: Seq<ImportHost>) -> Seq<ImportModel> {
    Seq::new(list.len(), |i: int| list[i]@)
}

/// Why a template was not imported.
#[derive(Debug, PartialEq, Eq)]
pub enum ImportError {
    Json(String),
    Encoding,
    Table,
    Row { row: usize, reason: &'static str },
    Version(u32),
    Empty,
    EmptyAlias,
    DuplicateAlias(String),
    UnknownJump { alias: String, jump: String },
    InvalidHost { alias: String },
    InvalidChain(String),
}

pub enum ImportErrorModel {
    Json(Seq<char>),
    Encoding,
    Table,
    Row { row: nat, reason: Seq<char> },
    Version(u32),
    Empty,
    EmptyAlias,
    DuplicateAlias(Seq<char>),
    UnknownJump { alias: Seq<char>, jump: Seq<char> },
    InvalidHost { alias: Seq<char> },
    InvalidChain(Seq<char>),
}

impl View for ImportError {
    type V = ImportErrorModel;

    open spec fn view(&self) -> ImportErrorModel {
        match self {
            ImportError::Json(text) => ImportErrorModel::Json(text@),
            ImportError::Encoding => ImportErrorModel::Encoding,
            ImportError::Table => ImportErrorModel::Table,
            ImportError::Row { row, reason } => ImportErrorModel::Row {
                row: *row as nat,
                reason: reason@,
            },
            ImportError::Version(version) => ImportErrorModel::Version(*version),
            ImportError::Empty => ImportErrorModel::Empty,
            ImportError::EmptyAlias => ImportErrorModel::EmptyAlias,
            ImportError::DuplicateAlias(alias) => ImportErrorModel::DuplicateAlias(alias@),
            ImportError::UnknownJump { alias, jump } => ImportErrorModel::UnknownJump {
                alias: alias@,
                jump: jump@,
            },
            ImportError::InvalidHost { alias } => ImportErrorModel::InvalidHost { alias: alias@ },
            ImportError::InvalidChain(alias) => ImportErrorModel::InvalidChain(alias@),
        }
    }
}

impl ImportErrorModel {
    pub open spec fn said(self) -> Seq<char> {
        match self {
            ImportErrorModel::Json(text) => "the template JSON is invalid: "@ + text,
            ImportErrorModel::Encoding => "the CSV file is not UTF-8 text"@,
            ImportErrorModel::Table => "the CSV file has a quoted cell that does not end properly"@,
            ImportErrorModel::Row { row, reason } => "row "@ + decimal(row)
                + " of the CSV file is invalid: "@ + reason,
            ImportErrorModel::Version(version) => "unsupported template version "@ + decimal(
                version as nat,
            ),
            ImportErrorModel::Empty => "the template contains no hosts"@,
            ImportErrorModel::EmptyAlias => "host alias is empty"@,
            ImportErrorModel::DuplicateAlias(alias) => "host alias already exists: "@ + alias,
            ImportErrorModel::UnknownJump { alias, jump } => "host "@ + alias
                + " references an unknown jump host: "@ + jump,
            ImportErrorModel::InvalidHost { alias } => "host "@ + alias
                + " has invalid connection fields"@,
            ImportErrorModel::InvalidChain(alias) => "host "@ + alias
                + " has an invalid jump-host chain"@,
        }
    }
}

impl ImportError {
    pub fn text(&self) -> (r: String)
        ensures
            r@ == self@.said(),
    {
        match self {
            ImportError::Json(text) => {
                let mut out = "the template JSON is invalid: ".to_owned();
                out.append(text.as_str());
                out
            },
            ImportError::Encoding => "the CSV file is not UTF-8 text".to_owned(),
            ImportError::Table => {
                "the CSV file has a quoted cell that does not end properly".to_owned()
            },
            ImportError::Row { row, reason } => {
                let mut out = "row ".to_owned();
                out.append(decimal_string(*row as u64).as_str());
                out.append(" of the CSV file is invalid: ");
                out.append(reason);
                out
            },
            ImportError::Version(version) => {
                let mut out = "unsupported template version ".to_owned();
                out.append(decimal_string(*version as u64).as_str());
                out
            },
            ImportError::Empty => "the template contains no hosts".to_owned(),
            ImportError::EmptyAlias => "host alias is empty".to_owned(),
            ImportError::DuplicateAlias(alias) => {
                let mut out = "host alias already exists: ".to_owned();
                out.append(alias.as_str());
                out
            },
            ImportError::UnknownJump { alias, jump } => {
                let mut out = "host ".to_owned();
                out.append(alias.as_str());
                out.append(" references an unknown jump host: ");
                out.append(jump.as_str());
                out
            },
            ImportError::InvalidHost { alias } => {
                let mut out = "host ".to_owned();
                out.append(alias.as_str());
                out.append(" has invalid connection fields");
                out
            },
            ImportError::InvalidChain(alias) => {
                let mut out = "host ".to_owned();
                out.append(alias.as_str());
                out.append(" has an invalid jump-host chain");
                out
            },
        }
    }
}

/// The template that users start from.
pub open spec fn template_text() -> Seq<char> {
    let host = object(
        2,
        seq![
            member(2, "alias"@, quoted("example"@)),
            member(2, "address"@, quoted("server.example.com"@)),
            member(2, "port"@, decimal(22)),
            member(2, "username"@, quoted("operator"@)),
            member(2, "protocol"@, quoted("ssh"@)),
            member(2, "ssh_auth"@, quoted("password"@)),
            member(2, "private_key_path"@, quoted(""@)),
            member(2, "jump_host"@, "null"@),
        ],
    );
    object(
        0,
        seq![
            member(0, "version"@, decimal(TEMPLATE_VERSION as nat)),
            member(0, "hosts"@, list(1, seq![host])),
        ],
    )
}

pub fn template_bytes() -> (r: String)
    ensures
        r@ == template_text(),
{
    let mut host = Lines::new(2);
    host.put_text("alias", "example");
    host.put_text("address", "server.example.com");
    host.put_number("port", 22);
    host.put_text("username", "operator");
    host.put_text("protocol", "ssh");
    host.put_text("ssh_auth", "password");
    host.put_text("private_key_path", "");
    host.put("jump_host", "null");
    assert(host@ =~= seq![
        member(2, "alias"@, quoted("example"@)),
        member(2, "address"@, quoted("server.example.com"@)),
        member(2, "port"@, decimal(22)),
        member(2, "username"@, quoted("operator"@)),
        member(2, "protocol"@, quoted("ssh"@)),
        member(2, "ssh_auth"@, quoted("password"@)),
        member(2, "private_key_path"@, quoted(""@)),
        member(2, "jump_host"@, "null"@),
    ]);
    let item = host.into_object();
    let mut hosts = Lines::new(1);
    hosts.item(item.as_str());
    proof {
        let items = seq![item@];
        assert(hosts@ =~= Seq::new(items.len(), |i: int| pad(1 + 1) + items[i]));
    }
    let value = hosts.into_list();
    let mut lines = Lines::new(0);
    lines.put_number("version", TEMPLATE_VERSION as u64);
    lines.put("hosts", value.as_str());
    assert(lines@ =~= seq![
        member(0, "version"@, decimal(TEMPLATE_VERSION as nat)),
        member(0, "hosts"@, list(1, seq![item@])),
    ]);
    lines.into_object()
}

/// The profile that an entry becomes, before its jump host is looked up. It starts untrusted, and
/// authenticates for every call.
pub open spec fn drafted(item: ImportModel, id: Id) -> ProfileModel {
    ProfileModel {
        alias: trimmed(item.alias),
        description: item.description,
        tags: normalized(item.tags),
        address: trimmed(item.address),
        port: match item.port {
            Some(port) => port,
            None => item.protocol.port_number(),
        },
        username: trimmed(item.username),
        protocol: item.protocol,
        ssh_auth: item.ssh_auth,
        private_key_path: trimmed(item.private_key_path),
        ..ProfileModel::blank(id)
    }
}

fn draft(item: &ImportHost) -> (r: HostProfile)
    ensures
        r@ == drafted(item@, r.id),
        is_random_id(r.id.value),
{
    let mut profile = HostProfile::default();
    profile.alias = trim(item.alias.as_str()).to_owned();
    profile.description = item.description.clone();
    profile.tags = normalize_tags(&item.tags);
    profile.address = trim(item.address.as_str()).to_owned();
    profile.port = match item.port {
        Some(port) => port,
        None => item.protocol.default_port(),
    };
    profile.username = trim(item.username.as_str()).to_owned();
    profile.protocol = item.protocol;
    profile.ssh_auth = item.ssh_auth;
    profile.private_key_path = trim(item.private_key_path.as_str()).to_owned();
    assert(profile@ =~= drafted(item@, profile.id));
    profile
}

/// A host has the alias already, or an earlier entry of the template.
pub open spec fn alias_in_use(
    existing: Seq<ProfileModel>,
    items: Seq<ImportModel>,
    i: int,
) -> bool {
    ||| exists|j: int|
        0 <= j < existing.len() && alias_key((#[trigger] existing[j]).alias) == alias_key(
            items[i].alias,
        )
    ||| exists|j: int|
        0 <= j < i && alias_key((#[trigger] items[j]).alias) == alias_key(items[i].alias)
}

/// What is wrong with an entry by itself, if anything is.
pub open spec fn item_fault(
    existing: Seq<ProfileModel>,
    items: Seq<ImportModel>,
    i: int,
) -> Option<ImportErrorModel> {
    let alias = trimmed(items[i].alias);
    if alias.len() == 0 {
        Some(ImportErrorModel::EmptyAlias)
    } else if alias_in_use(existing, items, i) {
        Some(ImportErrorModel::DuplicateAlias(alias))
    } else if drafted(items[i], Id { value: 0 }).issue() is Some {
        Some(ImportErrorModel::InvalidHost { alias })
    } else {
        None
    }
}

/// The alias of the jump host that an entry names, without white space; empty when it names none.
pub open spec fn jump_of(item: ImportModel) -> Seq<char> {
    match item.jump_host {
        Some(text) => trimmed(text),
        None => Seq::empty(),
    }
}

/// Position of the last host with this key; -1 when there is none.
pub open spec fn last_with_key(hosts: Seq<ProfileModel>, key: Seq<char>) -> int
    decreases hosts.len(),
{
    if hosts.len() == 0 {
        -1
    } else if alias_key(hosts.last().alias) == key {
        hosts.len() - 1
    } else {
        last_with_key(hosts.drop_last(), key)
    }
}

/// The profiles of a template under these identities, before their jump hosts are looked up.
pub open spec fn drafts(items: Seq<ImportModel>, ids: Seq<Id>) -> Seq<ProfileModel> {
    Seq::new(items.len(), |i: int| drafted(items[i], ids[i]))
}

/// What is wrong with the jump host of an entry, if anything is; `all` are the stored hosts and
/// the new ones.
pub open spec fn jump_fault(item: ImportModel, all: Seq<ProfileModel>) -> Option<
    ImportErrorModel,
> {
    let jump = jump_of(item);
    let alias = trimmed(item.alias);
    if jump.len() == 0 {
        None
    } else if last_with_key(all, alias_key(jump)) < 0 {
        Some(ImportErrorModel::UnknownJump { alias, jump })
    } else if item.protocol == Protocol::Telnet {
        Some(ImportErrorModel::InvalidHost { alias })
    } else {
        None
    }
}

/// An entry's profile with its jump host.
pub open spec fn linked(item: ImportModel, id: Id, all: Seq<ProfileModel>) -> ProfileModel {
    ProfileModel {
        jump_host: if jump_of(item).len() == 0 {
            None
        } else {
            Some(all[last_with_key(all, alias_key(jump_of(item)))].id)
        },
        ..drafted(item, id)
    }
}

pub open spec fn all_linked(
    items: Seq<ImportModel>,
    ids: Seq<Id>,
    all: Seq<ProfileModel>,
) -> Seq<ProfileModel> {
    Seq::new(items.len(), |i: int| linked(items[i], ids[i], all))
}

/// A new SSH host cannot be reached.
pub open spec fn unreachable_host(host: ProfileModel, all: Seq<ProfileModel>) -> bool {
    host.protocol == Protocol::Ssh && !has_chain(host, all)
}

/// What comes of a template when its hosts get these identities.
#[verifier::opaque]
pub open spec fn import_outcome(
    existing: Seq<ProfileModel>,
    version: u32,
    items: Seq<ImportModel>,
    ids: Seq<Id>,
    outcome: Result<Seq<ProfileModel>, ImportErrorModel>,
) -> bool {
    let all = existing + drafts(items, ids);
    let hosts = all_linked(items, ids, all);
    if version != TEMPLATE_VERSION {
        outcome == Err::<Seq<ProfileModel>, ImportErrorModel>(ImportErrorModel::Version(version))
    } else if items.len() == 0 {
        outcome == Err::<Seq<ProfileModel>, ImportErrorModel>(ImportErrorModel::Empty)
    } else if exists|i: int| #[trigger] faulty_item(existing, items, i) {
        outcome is Err && exists|i: int| #[trigger]
            first_faulty_item(existing, items, i) && outcome->Err_0 == item_fault(
                existing,
                items,
                i,
            )->0
    } else if exists|i: int| #[trigger] faulty_jump(items, all, i) {
        outcome is Err && exists|i: int| #[trigger]
            first_faulty_jump(items, all, i) && outcome->Err_0 == jump_fault(items[i], all)->0
    } else if exists|i: int| #[trigger] faulty_chain(hosts, existing + hosts, i) {
        outcome is Err && exists|i: int| #[trigger]
            first_faulty_chain(hosts, existing + hosts, i) && outcome->Err_0
                == ImportErrorModel::InvalidChain(hosts[i].alias)
    } else {
        outcome == Ok::<Seq<ProfileModel>, ImportErrorModel>(hosts)
    }
}

pub open spec fn faulty_item(
    existing: Seq<ProfileModel>,
    items: Seq<ImportModel>,
    i: int,
) -> bool {
    0 <= i < items.len() && item_fault(existing, items, i) is Some
}

pub open spec fn first_faulty_item(
    existing: Seq<ProfileModel>,
    items: Seq<ImportModel>,
    i: int,
) -> bool {
    faulty_item(existing, items, i) && forall|j: int|
        0 <= j < i ==> !(#[trigger] faulty_item(existing, items, j))
}

pub open spec fn faulty_jump(items: Seq<ImportModel>, all: Seq<ProfileModel>, i: int) -> bool {
    0 <= i < items.len() && jump_fault(items[i], all) is Some
}

pub open spec fn first_faulty_jump(
    items: Seq<ImportModel>,
    all: Seq<ProfileModel>,
    i: int,
) -> bool {
    faulty_jump(items, all, i) && forall|j: int|
        0 <= j < i ==> !(#[trigger] faulty_jump(items, all, j))
}

pub open spec fn faulty_chain(hosts: Seq<ProfileModel>, all: Seq<ProfileModel>, i: int) -> bool {
    0 <= i < hosts.len() && unreachable_host(hosts[i], all)
}

pub open spec fn first_faulty_chain(
    hosts: Seq<ProfileModel>,
    all: Seq<ProfileModel>,
    i: int,
) -> bool {
    faulty_chain(hosts, all, i) && forall|j: int|
        0 <= j < i ==> !(#[trigger] faulty_chain(hosts, all, j))
}

fn key_of(alias: &str) -> (r: String)
    ensures
        r@ == alias_key(alias@),
{
    to_ascii_lower(trim(alias))
}

/// Position of the last host with this key.
fn find_last(hosts: &Vec<HostProfile>, key: &str) -> (r: Option<usize>)
    ensures
        match r {
            Some(at) => at < hosts@.len() && at == last_with_key(models(hosts@), key@),
            None => last_with_key(models(hosts@), key@) == -1,
        },
{
    let ghost known = models(hosts@);
    let mut i: usize = hosts.len();
    assert(known.take(i as int) =~= known);
    while i > 0
        invariant
            i <= hosts@.len(),
            known == models(hosts@),
            last_with_key(known.take(i as int), key@) == last_with_key(known, key@),
        decreases i,
    {
        let ghost part = known.take(i as int);
        assert(part.last() == known[i - 1]);
        assert(part.drop_last() =~= known.take(i - 1));
        i = i - 1;
        let own = key_of(hosts[i].alias.as_str());
        if same_text(own.as_str(), key) {
            return Some(i);
        }
    }
    None
}

proof fn lemma_last_bounds(hosts: Seq<ProfileModel>, key: Seq<char>)
    ensures
        -1 <= last_with_key(hosts, key) < hosts.len(),
    decreases hosts.len(),
{
    if hosts.len() > 0 {
        lemma_last_bounds(hosts.drop_last(), key);
    }
}

/// The keys of the aliases that are taken.
fn taken_keys(existing: &[HostProfile]) -> (r: Vec<String>)
    ensures
        r@.len() == existing@.len(),
        forall|j: int|
            0 <= j < existing@.len() ==> (#[trigger] r@[j])@ == alias_key(existing@[j]@.alias),
{
    let mut keys: Vec<String> = Vec::new();
    let mut i: usize = 0;
    while i < existing.len()
        invariant
            i <= existing@.len(),
            keys@.len() == i,
            forall|j: int|
                0 <= j < i ==> (#[trigger] keys@[j])@ == alias_key(existing@[j]@.alias),
        decreases existing@.len() - i,
    {
        keys.push(key_of(existing[i].alias.as_str()));
        i = i + 1;
    }
    keys
}

proof fn lemma_alias_in_use(
    existing: Seq<ProfileModel>,
    items: Seq<ImportModel>,
    i: int,
    keys: Seq<String>,
    key: Seq<char>,
)
    requires
        0 <= i < items.len(),
        keys.len() == existing.len() + i,
        forall|j: int|
            0 <= j < existing.len() ==> (#[trigger] keys[j])@ == alias_key(existing[j].alias),
        forall|j: int|
            0 <= j < i ==> (#[trigger] keys[existing.len() + j])@ == alias_key(items[j].alias),
        key == alias_key(items[i].alias),
    ensures
        alias_in_use(existing, items, i) <==> exists|k: int|
            0 <= k < keys.len() && #[trigger] keys[k]@ == key,
{
    if exists|k: int| 0 <= k < keys.len() && #[trigger] keys[k]@ == key {
        let k = choose|k: int| 0 <= k < keys.len() && #[trigger] keys[k]@ == key;
        if k < existing.len() {
            assert(keys[k]@ == alias_key(existing[k].alias));
        } else {
            let j = k - existing.len();
            assert(keys[existing.len() + j]@ == alias_key(items[j].alias));
        }
    }
    if alias_in_use(existing, items, i) {
        if exists|j: int|
            0 <= j < existing.len() && alias_key((#[trigger] existing[j]).alias) == key {
            let j = choose|j: int|
                0 <= j < existing.len() && alias_key((#[trigger] existing[j]).alias) == key;
            assert(keys[j]@ == key);
        } else {
            let j = choose|j: int| 0 <= j < i && alias_key((#[trigger] items[j]).alias) == key;
            assert(keys[existing.len() + j]@ == key);
        }
    }
}

/// The identities of some profiles.
pub open spec fn ids_of(hosts: Seq<HostProfile>) -> Seq<Id> {
    Seq::new(hosts.len(), |i: int| hosts[i].id)
}

/// Makes the profiles of a template.
fn draft_hosts(existing: &[HostProfile], items: &Vec<ImportHost>) -> (r: Result<
    Vec<HostProfile>,
    ImportError,
>)
    ensures
        match r {
            Ok(found) => {
                &&& forall|i: int|
                    !(#[trigger] faulty_item(models(existing@), import_models(items@), i))
                &&& models(found@) == drafts(import_models(items@), ids_of(found@))
                &&& all_random(ids_of(found@))
            },
            Err(error) => exists|i: int| #[trigger]
                first_faulty_item(models(existing@), import_models(items@), i) && error@
                    == item_fault(models(existing@), import_models(items@), i)->0,
        },
{
    let ghost known = models(existing@);
    let ghost entries = import_models(items@);
    let mut keys = taken_keys(existing);
    let mut found: Vec<HostProfile> = Vec::new();
    let mut i: usize = 0;
    while i < items.len()
        invariant
            i <= items@.len(),
            known == models(existing@),
            entries == import_models(items@),
            keys@.len() == known.len() + i,
            forall|j: int|
                0 <= j < known.len() ==> (#[trigger] keys@[j])@ == alias_key(known[j].alias),
            forall|j: int|
                0 <= j < i ==> (#[trigger] keys@[known.len() + j])@ == alias_key(entries[j].alias),
            found@.len() == i,
            forall|j: int|
                0 <= j < i ==> (#[trigger] found@[j])@ == drafted(entries[j], found@[j].id)
                    && is_random_id(found@[j].id.value),
            forall|j: int| 0 <= j < i ==> !(#[trigger] faulty_item(known, entries, j)),
        decreases items@.len() - i,
    {
        let item = &items[i];
        assert(entries[i as int] == item@);
        let alias = trim(item.alias.as_str());
        if alias.is_empty() {
            assert(first_faulty_item(known, entries, i as int));
            return Err(ImportError::EmptyAlias);
        }
        let key = key_of(item.alias.as_str());
        proof {
            lemma_alias_in_use(known, entries, i as int, keys@, key@);
        }
        if holds_text(&keys, key.as_str()) {
            assert(first_faulty_item(known, entries, i as int));
            return Err(ImportError::DuplicateAlias(alias.to_owned()));
        }
        let profile = draft(item);
        if profile.validation_issue().is_some() {
            assert(first_faulty_item(known, entries, i as int));
            return Err(ImportError::InvalidHost { alias: alias.to_owned() });
        }
        assert(!faulty_item(known, entries, i as int));
        keys.push(key);
        found.push(profile);
        i = i + 1;
    }
    assert(models(found@) =~= drafts(entries, ids_of(found@)));
    Ok(found)
}

/// A copy of the stored hosts with the new ones behind them.
fn together(existing: &[HostProfile], more: &Vec<HostProfile>) -> (r: Vec<HostProfile>)
    ensures
        models(r@) == models(existing@) + models(more@),
{
    let mut all = copy_hosts(existing);
    let ghost base = models(existing@);
    let mut i: usize = 0;
    assert(models(all@) =~= base + models(more@).take(0));
    while i < more.len()
        invariant
            i <= more@.len(),
            models(all@) == base + models(more@).take(i as int),
        decreases more@.len() - i,
    {
        let ghost before = models(all@);
        all.push(more[i].clone());
        assert(models(all@) =~= before.push(more@[i as int]@));
        assert(models(all@) =~= base + models(more@).take(i + 1));
        i = i + 1;
    }
    assert(models(more@).take(i as int) =~= models(more@));
    all
}

/// Looks up the jump hosts of new profiles.
fn link_hosts(
    existing: &[HostProfile],
    items: &Vec<ImportHost>,
    found: &mut Vec<HostProfile>,
) -> (r: Result<(), ImportError>)
    requires
        models(old(found)@) == drafts(import_models(items@), ids_of(old(found)@)),
    ensures
        ({
            let entries = import_models(items@);
            let ids = ids_of(old(found)@);
            let all = models(existing@) + drafts(entries, ids);
            match r {
                Ok(_) => {
                    &&& forall|i: int| !(#[trigger] faulty_jump(entries, all, i))
                    &&& models(final(found)@) == all_linked(entries, ids, all)
                    &&& ids_of(final(found)@) == ids
                },
                Err(error) => exists|i: int| #[trigger]
                    first_faulty_jump(entries, all, i) && error@ == jump_fault(
                        entries[i],
                        all,
                    )->0,
            }
        }),
{
    let ghost entries = import_models(items@);
    let ghost ids = ids_of(found@);
    let ghost start = models(found@);
    let combined = together(existing, found);
    let ghost all = models(combined@);
    assert(start.len() == found@.len());
    let mut i: usize = 0;
    while i < items.len()
        invariant
            i <= items@.len(),
            entries == import_models(items@),
            found@.len() == items@.len(),
            start.len() == items@.len(),
            start == drafts(entries, ids),
            ids.len() == items@.len(),
            ids == ids_of(old(found)@),
            all == models(combined@),
            all == models(existing@) + drafts(entries, ids),
            forall|j: int|
                0 <= j < i ==> (#[trigger] found@[j])@ == linked(entries[j], ids[j], all)
                    && found@[j].id == ids[j],
            forall|j: int|
                i <= j < items@.len() ==> (#[trigger] found@[j])@ == start[j] && found@[j].id
                    == ids[j],
            forall|j: int| 0 <= j < i ==> !(#[trigger] faulty_jump(entries, all, j)),
        decreases items@.len() - i,
    {
        let item = &items[i];
        assert(entries[i as int] == item@);
        assert(found@[i as int]@ == drafted(entries[i as int], ids[i as int]));
        let jump = match &item.jump_host {
            Some(text) => trim(text.as_str()),
            None => "",
        };
        proof {
            reveal_strlit("");
            assert(jump@ =~= jump_of(entries[i as int]));
        }
        if !jump.is_empty() {
            let key = key_of(jump);
            proof {
                crate::text::trimming_is_final(
                    match item@.jump_host {
                        Some(text) => text,
                        None => Seq::empty(),
                    },
                );
                lemma_last_bounds(all, key@);
            }
            match find_last(&combined, key.as_str()) {
                None => {
                    assert(first_faulty_jump(entries, all, i as int));
                    return Err(
                        ImportError::UnknownJump {
                            alias: trim(item.alias.as_str()).to_owned(),
                            jump: jump.to_owned(),
                        },
                    );
                },
                Some(at) => {
                    if item.protocol == Protocol::Telnet {
                        assert(first_faulty_jump(entries, all, i as int));
                        return Err(
                            ImportError::InvalidHost {
                                alias: trim(item.alias.as_str()).to_owned(),
                            },
                        );
                    }
                    let jump_id = combined[at].id;
                    assert(all[at as int].id == jump_id);
                    found[i].jump_host = Some(jump_id);
                },
            }
        }
        assert(!faulty_jump(entries, all, i as int));
        assert(found@[i as int]@ =~= linked(entries[i as int], ids[i as int], all));
        i = i + 1;
    }
    assert(models(found@) =~= all_linked(entries, ids, all));
    assert(ids_of(found@) =~= ids);
    Ok(())
}

/// Whether every new SSH host can be reached; the position of the first that cannot.
fn find_unreachable(all: &Vec<HostProfile>, found: &Vec<HostProfile>) -> (r: Option<usize>)
    ensures
        match r {
            Some(i) => first_faulty_chain(models(found@), models(all@), i as int),
            None => forall|i: int| !(#[trigger] faulty_chain(models(found@), models(all@), i)),
        },
{
    let ghost hosts = models(found@);
    let ghost known = models(all@);
    let mut i: usize = 0;
    while i < found.len()
        invariant
            i <= found@.len(),
            hosts == models(found@),
            known == models(all@),
            forall|j: int| 0 <= j < i ==> !(#[trigger] faulty_chain(hosts, known, j)),
        decreases found@.len() - i,
    {
        assert(hosts[i as int] == found@[i as int]@);
        if found[i].protocol == Protocol::Ssh && resolve_ssh_chain(
            &found[i],
            all.as_slice(),
        ).is_err() {
            assert(first_faulty_chain(hosts, known, i as int));
            return Some(i);
        }
        assert(!faulty_chain(hosts, known, i as int));
        i = i + 1;
    }
    None
}

proof fn lemma_item_outcome(
    existing: Seq<ProfileModel>,
    items: Seq<ImportModel>,
    ids: Seq<Id>,
    i: int,
)
    requires
        first_faulty_item(existing, items, i),
    ensures
        import_outcome(
            existing,
            TEMPLATE_VERSION,
            items,
            ids,
            Err(item_fault(existing, items, i)->0),
        ),
{
    reveal(import_outcome);
    assert(faulty_item(existing, items, i));
}

proof fn lemma_jump_outcome(
    existing: Seq<ProfileModel>,
    items: Seq<ImportModel>,
    ids: Seq<Id>,
    i: int,
)
    requires
        forall|j: int| !(#[trigger] faulty_item(existing, items, j)),
        first_faulty_jump(items, existing + drafts(items, ids), i),
    ensures
        import_outcome(
            existing,
            TEMPLATE_VERSION,
            items,
            ids,
            Err(jump_fault(items[i], existing + drafts(items, ids))->0),
        ),
{
    reveal(import_outcome);
    assert(faulty_jump(items, existing + drafts(items, ids), i));
}

proof fn lemma_chain_outcome(
    existing: Seq<ProfileModel>,
    items: Seq<ImportModel>,
    ids: Seq<Id>,
    hosts: Seq<ProfileModel>,
    i: int,
)
    requires
        forall|j: int| !(#[trigger] faulty_item(existing, items, j)),
        forall|j: int| !(#[trigger] faulty_jump(items, existing + drafts(items, ids), j)),
        hosts == all_linked(items, ids, existing + drafts(items, ids)),
        items.len() > 0,
        first_faulty_chain(hosts, existing + hosts, i),
    ensures
        import_outcome(
            existing,
            TEMPLATE_VERSION,
            items,
            ids,
            Err(ImportErrorModel::InvalidChain(hosts[i].alias)),
        ),
{
    reveal(import_outcome);
    assert(faulty_chain(hosts, existing + hosts, i));
}

proof fn lemma_good_outcome(
    existing: Seq<ProfileModel>,
    items: Seq<ImportModel>,
    ids: Seq<Id>,
    hosts: Seq<ProfileModel>,
)
    requires
        forall|j: int| !(#[trigger] faulty_item(existing, items, j)),
        forall|j: int| !(#[trigger] faulty_jump(items, existing + drafts(items, ids), j)),
        hosts == all_linked(items, ids, existing + drafts(items, ids)),
        items.len() > 0,
        forall|j: int| !(#[trigger] faulty_chain(hosts, existing + hosts, j)),
    ensures
        import_outcome(existing, TEMPLATE_VERSION, items, ids, Ok(hosts)),
{
    reveal(import_outcome);
}

proof fn lemma_refused_outcome(
    existing: Seq<ProfileModel>,
    version: u32,
    items: Seq<ImportModel>,
    ids: Seq<Id>,
)
    ensures
        version != TEMPLATE_VERSION ==> import_outcome(
            existing,
            version,
            items,
            ids,
            Err(ImportErrorModel::Version(version)),
        ),
        version == TEMPLATE_VERSION && items.len() == 0 ==> import_outcome(
            existing,
            version,
            items,
            ids,
            Err(ImportErrorModel::Empty),
        ),
{
    reveal(import_outcome);
}

/// What a call of `parse_template` returned, as plain values.
pub open spec fn outcome_of(result: Result<Vec<HostProfile>, ImportError>) -> Result<
    Seq<ProfileModel>,
    ImportErrorModel,
> {
    match result {
        Ok(hosts) => Ok(models(hosts@)),
        Err(error) => Err(error@),
    }
}

/// The hosts of a template, under fresh identities, with their jump hosts looked up among the
/// stored hosts and each other. One bad entry refuses the whole template.
pub fn parse_template(template: HostImportTemplate, existing: &[HostProfile]) -> (r: Result<
    Vec<HostProfile>,
    ImportError,
>)
    ensures
        exists|ids: Seq<Id>|
            ids.len() == template.hosts@.len() && (r is Ok ==> all_random(ids))
                && #[trigger] import_outcome(
                models(existing@),
                template.version,
                import_models(template.hosts@),
                ids,
                outcome_of(r),
            ),
        r matches Ok(found) ==> found@.len() == template.hosts@.len() && forall|i: int|
            0 <= i < found@.len() ==> {
                let entry = template.hosts@[i];
                let host = #[trigger] found@[i];
                &&& host.alias@ == trimmed(entry.alias@)
                &&& host.address@ == trimmed(entry.address@)
                &&& host.username@ == trimmed(entry.username@)
                &&& host.private_key_path@ == trimmed(entry.private_key_path@)
                &&& host.protocol == entry.protocol
                &&& host.ssh_auth == entry.ssh_auth
                &&& entry.port matches Some(port) ==> host.port == port
                &&& entry.port is None && entry.protocol == Protocol::Ssh ==> host.port == 22
                &&& entry.port is None && entry.protocol == Protocol::Telnet ==> host.port == 23
                &&& host.description@ == entry.description@
                &&& !host.verified
                &&& host.host_fingerprint is None
            },
{
    let ghost known = models(existing@);
    let ghost entries = import_models(template.hosts@);
    let ghost any = Seq::new(entries.len(), |i: int| Id { value: 0 });
    proof {
        lemma_refused_outcome(known, template.version, entries, any);
    }
    if template.version != TEMPLATE_VERSION {
        return Err(ImportError::Version(template.version));
    }
    if template.hosts.len() == 0 {
        return Err(ImportError::Empty);
    }
    let mut found = match draft_hosts(existing, &template.hosts) {
        Ok(found) => found,
        Err(error) => {
            proof {
                let i = choose|i: int| #[trigger]
                    first_faulty_item(known, entries, i) && error@ == item_fault(
                        known,
                        entries,
                        i,
                    )->0;
                lemma_item_outcome(known, entries, any, i);
            }
            return Err(error);
        },
    };
    let ghost ids = ids_of(found@);
    let ghost all = known + drafts(entries, ids);
    assert(found@.len() == models(found@).len());
    if let Err(error) = link_hosts(existing, &template.hosts, &mut found) {
        proof {
            let i = choose|i: int| #[trigger]
                first_faulty_jump(entries, all, i) && error@ == jump_fault(entries[i], all)->0;
            lemma_jump_outcome(known, entries, ids, i);
        }
        return Err(error);
    }
    let ghost hosts = models(found@);
    let combined = together(existing, &found);
    match find_unreachable(&combined, &found) {
        Some(i) => {
            let alias = found[i].alias.clone();
            proof {
                lemma_chain_outcome(known, entries, ids, hosts, i as int);
                assert(hosts[i as int].alias == alias@);
            }
            Err(ImportError::InvalidChain(alias))
        },
        None => {
            proof {
                lemma_good_outcome(known, entries, ids, hosts);
                assert forall|i: int| 0 <= i < found@.len() implies (
                #[trigger] found@[i])@ == hosts[i] && entries[i] == template.hosts@[i]@ && hosts[i]
                    == linked(entries[i], ids[i], all) by {}
            }
            Ok(found)
        },
    }
}

pub proof fn lemma_outcome_length(
    existing: Seq<ProfileModel>,
    version: u32,
    items: Seq<ImportModel>,
    ids: Seq<Id>,
    hosts: Seq<ProfileModel>,
)
    requires
        import_outcome(existing, version, items, ids, Ok(hosts)),
    ensures
        hosts.len() == items.len(),
{
    reveal(import_outcome);
}

/// Hosts that were imported are valid, have aliases that nobody had, can be reached, and are
/// trusted in nothing.
pub proof fn imported_hosts_are_sound(
    existing: Seq<ProfileModel>,
    version: u32,
    items: Seq<ImportModel>,
    ids: Seq<Id>,
    hosts: Seq<ProfileModel>,
    i: int,
)
    requires
        import_outcome(existing, version, items, ids, Ok(hosts)),
        0 <= i < hosts.len(),
    ensures
        hosts.len() == items.len(),
        hosts[i].alias == trimmed(items[i].alias),
        hosts[i].alias.len() > 0,
        hosts[i].description == items[i].description,
        hosts[i].tags == normalized(items[i].tags),
        forall|j: int|
            0 <= j < existing.len() ==> alias_key((#[trigger] existing[j]).alias) != alias_key(
                items[i].alias,
            ),
        forall|j: int|
            0 <= j < i ==> alias_key((#[trigger] items[j]).alias) != alias_key(items[i].alias),
        hosts[i].protocol == Protocol::Ssh ==> has_chain(hosts[i], existing + hosts),
        !hosts[i].verified,
        hosts[i].host_fingerprint is None,
        hosts[i].auth_persistence == crate::model::AuthPersistence::PerCall,
{
    reveal(import_outcome);
    let all = existing + drafts(items, ids);
    assert(!faulty_item(existing, items, i));
    assert(!faulty_jump(items, all, i));
    assert(!faulty_chain(hosts, existing + hosts, i));
    assert(hosts == all_linked(items, ids, all));
    if exists|j: int|
        0 <= j < existing.len() && alias_key((#[trigger] existing[j]).alias) == alias_key(
            items[i].alias,
        ) {
        assert(alias_in_use(existing, items, i));
    }
    if exists|j: int|
        0 <= j < i && alias_key((#[trigger] items[j]).alias) == alias_key(items[i].alias) {
        assert(alias_in_use(existing, items, i));
    }
}

/// A host to be stored, with the secret that came with it.
pub struct ImportedHost {
    pub profile: HostProfile,
    pub password: Secret,
    pub key_passphrase: Secret,
}

/// The secret that the way of logging in calls for, if it was given.
pub fn imported_credential(item: &ImportedHost) -> (r: Option<(CredentialKind, Secret)>)
    ensures
        match (item.profile@.protocol, item.profile@.ssh_auth) {
            (Protocol::Ssh, SshAuth::SshAgent) => r is None,
            (Protocol::Ssh, SshAuth::PrivateKey) => if item.key_passphrase@.len() == 0 {
                r is None
            } else {
                r matches Some(pair) && pair.0 == CredentialKind::KeyPassphrase && pair.1@
                    == item.key_passphrase@
            },
            _ => if item.password@.len() == 0 {
                r is None
            } else {
                r matches Some(pair) && pair.0 == CredentialKind::Password && pair.1@
                    == item.password@
            },
        },
{
    if item.profile.protocol == Protocol::Ssh && item.profile.ssh_auth == SshAuth::SshAgent {
        return None;
    }
    if item.profile.protocol == Protocol::Ssh && item.profile.ssh_auth == SshAuth::PrivateKey {
        if item.key_passphrase.as_str().is_empty() {
            return None;
        }
        return Some((CredentialKind::KeyPassphrase, item.key_passphrase.clone()));
    }
    if item.password.as_str().is_empty() {
        return None;
    }
    Some((CredentialKind::Password, item.password.clone()))
}

/// Each imported host has the connection details of its entry: address, user name and key file
/// without the white space around them, the protocol and the way of logging in, and the port, or
/// where none is given that of the protocol.
pub proof fn imported_hosts_connect_as_asked(
    existing: Seq<ProfileModel>,
    version: u32,
    items: Seq<ImportModel>,
    ids: Seq<Id>,
    hosts: Seq<ProfileModel>,
    i: int,
)
    requires
        import_outcome(existing, version, items, ids, Ok(hosts)),
        0 <= i < hosts.len(),
    ensures
        hosts.len() == items.len(),
        hosts[i].address == trimmed(items[i].address),
        hosts[i].username == trimmed(items[i].username),
        hosts[i].private_key_path == trimmed(items[i].private_key_path),
        hosts[i].protocol == items[i].protocol,
        hosts[i].ssh_auth == items[i].ssh_auth,
        items[i].port matches Some(port) ==> hosts[i].port == port,
        items[i].port is None && items[i].protocol == Protocol::Ssh ==> hosts[i].port == 22,
        items[i].port is None && items[i].protocol == Protocol::Telnet ==> hosts[i].port == 23,
        hosts[i].address.len() > 0 && hosts[i].username.len() > 0 && hosts[i].port != 0,
        i < ids.len() ==> hosts[i].id == ids[i],
        !hosts[i].advanced.codex_hidden,
{
    reveal(import_outcome);
    let all = existing + drafts(items, ids);
    assert(!faulty_item(existing, items, i));
    assert(hosts == all_linked(items, ids, all));
    let draft = drafted(items[i], Id { value: 0 });
    crate::model::profiles_are_refused_for_a_reason(draft);
    crate::text::trimming_is_final(items[i].address);
    crate::text::trimming_is_final(items[i].username);
}

/// An imported host goes through the host that its entry names, be that stored or imported with
/// it, and through none where the entry names none.
pub proof fn imported_hosts_go_through_what_they_name(
    existing: Seq<ProfileModel>,
    version: u32,
    items: Seq<ImportModel>,
    ids: Seq<Id>,
    hosts: Seq<ProfileModel>,
    i: int,
)
    requires
        import_outcome(existing, version, items, ids, Ok(hosts)),
        0 <= i < hosts.len(),
        ids.len() == items.len(),
    ensures
        items[i].jump_host is None ==> hosts[i].jump_host is None,
        items[i].jump_host matches Some(name) ==> if trimmed(name).len() == 0 {
            hosts[i].jump_host is None
        } else {
            hosts[i].jump_host is Some && exists|k: int|
                0 <= k < (existing + hosts).len() && (#[trigger] (existing + hosts)[k]).id
                    == hosts[i].jump_host->0 && alias_key((existing + hosts)[k].alias) == alias_key(
                    name,
                )
        },
        items[i].protocol == Protocol::Telnet ==> hosts[i].jump_host is None,
{
    reveal(import_outcome);
    let all = existing + drafts(items, ids);
    assert(!faulty_jump(items, all, i));
    assert(hosts == all_linked(items, ids, all));
    if jump_of(items[i]).len() > 0 {
        let name = items[i].jump_host->0;
        crate::text::trimming_is_final(name);
        let key = alias_key(jump_of(items[i]));
        assert(key == alias_key(name));
        let k = last_with_key(all, key);
        lemma_last_bounds(all, key);
        lemma_last_has_key(all, key);
        assert(0 <= k < all.len());
        let both = existing + hosts;
        if k < existing.len() {
            assert(both[k] == all[k]);
        } else {
            assert(both[k] == linked(items[k - existing.len()], ids[k - existing.len()], all));
            assert(all[k] == drafted(items[k - existing.len()], ids[k - existing.len()]));
        }
        assert(both[k].id == hosts[i].jump_host->0);
    }
}

proof fn lemma_last_has_key(hosts: Seq<ProfileModel>, key: Seq<char>)
    ensures
        last_with_key(hosts, key) >= 0 ==> alias_key(hosts[last_with_key(hosts, key)].alias)
            == key,
        (exists|i: int| 0 <= i < hosts.len() && alias_key((#[trigger] hosts[i]).alias) == key)
            ==> last_with_key(hosts, key) >= 0,
    decreases hosts.len(),
{
    if hosts.len() > 0 {
        let short = hosts.drop_last();
        lemma_last_has_key(short, key);
        lemma_last_bounds(short, key);
        if exists|i: int| 0 <= i < hosts.len() && alias_key((#[trigger] hosts[i]).alias) == key {
            let i = choose|i: int|
                0 <= i < hosts.len() && alias_key((#[trigger] hosts[i]).alias) == key;
            if i < short.len() {
                assert(alias_key(short[i].alias) == key);
            }
        }
    }
}

/// The entry is complete by itself: it has an alias, an address, a user name, a port that is not
/// zero, a key file where it logs in with one, and no jump host.
pub open spec fn is_complete(item: ImportModel) -> bool {
    &&& trimmed(item.alias).len() > 0
    &&& trimmed(item.address).len() > 0
    &&& trimmed(item.username).len() > 0
    &&& item.port != Some(0u16)
    &&& item.protocol == Protocol::Ssh && item.ssh_auth == SshAuth::PrivateKey ==> trimmed(
        item.private_key_path,
    ).len() > 0
    &&& item.jump_host is None
}

/// A template of complete entries whose aliases nobody has, not even each other, is imported.
pub proof fn complete_templates_are_imported(
    existing: Seq<ProfileModel>,
    items: Seq<ImportModel>,
    ids: Seq<Id>,
    outcome: Result<Seq<ProfileModel>, ImportErrorModel>,
)
    requires
        import_outcome(existing, 1, items, ids, outcome),
        items.len() > 0,
        forall|i: int| 0 <= i < items.len() ==> is_complete(#[trigger] items[i]),
        forall|i: int, j: int|
            0 <= i < items.len() && 0 <= j < existing.len() ==> alias_key(
                (#[trigger] items[i]).alias,
            ) != alias_key((#[trigger] existing[j]).alias),
        forall|i: int, j: int|
            0 <= i < j < items.len() ==> alias_key((#[trigger] items[i]).alias) != alias_key(
                (#[trigger] items[j]).alias,
            ),
    ensures
        outcome is Ok,
        outcome->Ok_0.len() == items.len(),
{
    reveal(import_outcome);
    let all = existing + drafts(items, ids);
    let hosts = all_linked(items, ids, all);
    assert forall|i: int| !(#[trigger] faulty_item(existing, items, i)) by {
        if 0 <= i < items.len() {
            assert(is_complete(items[i]));
            let draft = drafted(items[i], Id { value: 0 });
            crate::text::trimming_is_final(items[i].alias);
            crate::text::trimming_is_final(items[i].address);
            crate::text::trimming_is_final(items[i].username);
            crate::text::trimming_is_final(items[i].private_key_path);
            crate::model::profiles_are_refused_for_a_reason(draft);
            assert(draft.issue() is None);
            assert(!alias_in_use(existing, items, i));
        }
    }
    assert forall|i: int| !(#[trigger] faulty_jump(items, all, i)) by {
        if 0 <= i < items.len() {
            assert(is_complete(items[i]));
        }
    }
    assert forall|i: int| !(#[trigger] faulty_chain(hosts, existing + hosts, i)) by {
        if 0 <= i < hosts.len() && hosts[i].protocol == Protocol::Ssh {
            assert(is_complete(items[i]));
            crate::model::chains_grow_by_their_target(
                hosts[i],
                existing + hosts,
                hosts[i],
                Seq::empty(),
            );
            assert(crate::model::is_chain(hosts[i], existing + hosts, seq![hosts[i]]));
        }
    }
}

/// A template is refused as a whole: for its version, for having no hosts, for an alias that is
/// blank or taken, and for a jump host that nobody is.
pub proof fn bad_templates_are_refused(
    existing: Seq<ProfileModel>,
    version: u32,
    items: Seq<ImportModel>,
    ids: Seq<Id>,
    outcome: Result<Seq<ProfileModel>, ImportErrorModel>,
    i: int,
    j: int,
)
    requires
        import_outcome(existing, version, items, ids, outcome),
        ids.len() == items.len(),
        0 <= i < items.len(),
    ensures
        version != 1 ==> outcome == Err::<Seq<ProfileModel>, ImportErrorModel>(
            ImportErrorModel::Version(version),
        ),
        trimmed(items[i].alias).len() == 0 ==> outcome is Err,
        trimmed(items[i].address).len() == 0 ==> outcome is Err,
        trimmed(items[i].username).len() == 0 ==> outcome is Err,
        items[i].port == Some(0u16) ==> outcome is Err,
        0 <= j < existing.len() && alias_key(existing[j].alias) == alias_key(items[i].alias)
            ==> outcome is Err,
        0 <= j < i && alias_key(items[j].alias) == alias_key(items[i].alias) ==> outcome is Err,
        (items[i].jump_host matches Some(name) && trimmed(name).len() > 0 && (forall|k: int|
            0 <= k < existing.len() ==> alias_key((#[trigger] existing[k]).alias) != alias_key(
                name,
            )) && (forall|k: int|
            0 <= k < items.len() ==> alias_key(trimmed((#[trigger] items[k]).alias)) != alias_key(
                name,
            ))) ==> outcome is Err,
{
    if outcome is Ok {
        let hosts = outcome->Ok_0;
        lemma_version(existing, version, items, ids, outcome);
        lemma_outcome_length(existing, version, items, ids, hosts);
        imported_hosts_are_sound(existing, version, items, ids, hosts, i);
        imported_hosts_connect_as_asked(existing, version, items, ids, hosts, i);
        imported_hosts_go_through_what_they_name(existing, version, items, ids, hosts, i);
        if items[i].jump_host is Some && trimmed(items[i].jump_host->0).len() > 0 {
            let name = items[i].jump_host->0;
            let both = existing + hosts;
            let k = choose|k: int|
                0 <= k < both.len() && (#[trigger] both[k]).id == hosts[i].jump_host->0 && alias_key(
                    both[k].alias,
                ) == alias_key(name);
            if k < existing.len() {
                assert(both[k] == existing[k]);
            } else {
                let m = k - existing.len();
                assert(both[k] == hosts[m]);
                imported_hosts_are_sound(existing, version, items, ids, hosts, m);
            }
        }
    } else {
        lemma_version(existing, version, items, ids, outcome);
    }
}

proof fn lemma_version(
    existing: Seq<ProfileModel>,
    version: u32,
    items: Seq<ImportModel>,
    ids: Seq<Id>,
    outcome: Result<Seq<ProfileModel>, ImportErrorModel>,
)
    requires
        import_outcome(existing, version, items, ids, outcome),
    ensures
        version != 1 ==> outcome == Err::<Seq<ProfileModel>, ImportErrorModel>(
            ImportErrorModel::Version(version),
        ),
{
    reveal(import_outcome);
}

} // verus!

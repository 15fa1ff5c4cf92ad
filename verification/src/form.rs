//! The rules of the form and of the dialogs: what one choice makes of another, and what is said
//! beside a field.
use vstd::prelude::*;

use crate::callback::{is_flush, Flush};
use crate::editor::{EditorModel, HostEditor, Lookups, PasswordMode};
use crate::hosts_app::{form_of, AppModel, HostsApp};
use crate::i18n::{has_key, text_of, Catalog, Entry};
use crate::id::Id;
use crate::message::{Message, MessageModel, Status, StatusModel};
use crate::model::{
    can_use_as_jump, has_chain, models, normalize_tags, normalized, through, AdvancedModel,
    AuthPersistence, HostProfile, ProfileModel, Protocol, RemoteEnv,
};
use crate::pool::holds_id;
use crate::probes::runs;
use crate::storage::StoreModel;
use crate::text::{decimal, decimal_string, join, joined, texts};

verus! {

/// The profile once another protocol was chosen. A port that was the usual one stays so, and
/// Telnet knows no jump hosts.
pub open spec fn protocol_switched(profile: ProfileModel, to: Protocol) -> ProfileModel {
    if profile.protocol == to {
        profile
    } else {
        ProfileModel {
            protocol: to,
            port: if profile.port == profile.protocol.port_number() {
                to.port_number()
            } else {
                profile.port
            },
            jump_host: if to == Protocol::Telnet {
                None
            } else {
                profile.jump_host
            },
            ..profile
        }
    }
}

pub fn switch_protocol(profile: &mut HostProfile, to: Protocol)
    ensures
        final(profile)@ == protocol_switched(old(profile)@, to),
{
    let previous = profile.protocol;
    if previous == to {
        return;
    }
    profile.protocol = to;
    if profile.port == previous.default_port() {
        profile.port = to.default_port();
    }
    if to == Protocol::Telnet {
        profile.jump_host = None;
    }
}

/// Switching there and back leaves a profile without a jump host as it was, where its port was
/// the usual one or is usual for neither protocol.
pub proof fn switching_back_restores(profile: ProfileModel, to: Protocol)
    requires
        profile.jump_host is None,
        profile.port == profile.protocol.port_number() || profile.port != to.port_number(),
    ensures
        protocol_switched(protocol_switched(profile, to), profile.protocol) == profile,
{
}

/// Minutes that are offered where none were chosen.
pub const USUAL_IDLE_MINUTES: u32 = 15;

/// The choices of persistence.
pub fn persistence_options(profile: &HostProfile) -> (r: Vec<AuthPersistence>)
    ensures
        r@.len() == 3,
        r@[0] == AuthPersistence::PerCall,
        r@[1] == AuthPersistence::Session,
        r@[2] == (AuthPersistence::Idle {
            minutes: match profile@.persistence() {
                AuthPersistence::Idle { minutes } => minutes,
                _ => USUAL_IDLE_MINUTES,
            },
        }),
{
    let minutes: u32 = match profile.effective_auth_persistence() {
        AuthPersistence::Idle { minutes } => minutes,
        _ => USUAL_IDLE_MINUTES,
    };
    let mut options: Vec<AuthPersistence> = Vec::new();
    options.push(AuthPersistence::PerCall);
    options.push(AuthPersistence::Session);
    options.push(AuthPersistence::Idle { minutes });
    options
}

/// The choices are of one kind, whatever their minutes.
pub open spec fn is_same_kind(a: AuthPersistence, b: AuthPersistence) -> bool {
    match a {
        AuthPersistence::PerCall => b is PerCall,
        AuthPersistence::Session => b is Session,
        AuthPersistence::Idle { .. } => b is Idle,
    }
}

/// The option is the one that the form shows as chosen, whatever its minutes.
pub fn shows_as_chosen(profile: &HostProfile, option: AuthPersistence) -> (r: bool)
    ensures
        r == is_same_kind(profile@.persistence(), option),
{
    match (profile.effective_auth_persistence(), option) {
        (AuthPersistence::PerCall, AuthPersistence::PerCall) => true,
        (AuthPersistence::Session, AuthPersistence::Session) => true,
        (AuthPersistence::Idle { .. }, AuthPersistence::Idle { .. }) => true,
        _ => false,
    }
}

/// The form warns that the host keeps its session.
pub fn warns_of_persistence(profile: &HostProfile) -> (r: bool)
    ensures
        r == (profile@.persistence() != AuthPersistence::PerCall),
{
    profile.effective_auth_persistence() != AuthPersistence::PerCall
}

pub open spec fn env_key(value: RemoteEnv) -> Seq<char> {
    match value {
        RemoteEnv::Auto => "remote_env_auto"@,
        RemoteEnv::Posix => "remote_env_posix"@,
        RemoteEnv::Windows => "remote_env_windows"@,
    }
}

pub fn remote_env_key(value: RemoteEnv) -> (r: &'static str)
    ensures
        r@ == env_key(value),
{
    match value {
        RemoteEnv::Auto => "remote_env_auto",
        RemoteEnv::Posix => "remote_env_posix",
        RemoteEnv::Windows => "remote_env_windows",
    }
}

/// The catalog has the texts of the summary.
pub open spec fn knows_summary(strings: Seq<Entry>) -> bool {
    &&& has_key(strings, "max_channels"@)
    &&& has_key(strings, "connect_timeout_default"@)
    &&& has_key(strings, "command_timeout_default"@)
    &&& has_key(strings, "keepalive_interval"@)
    &&& has_key(strings, "remote_env_auto"@)
    &&& has_key(strings, "remote_env_posix"@)
    &&& has_key(strings, "remote_env_windows"@)
    &&& has_key(strings, "codex_hidden"@)
    &&& has_key(strings, "telnet_prompts"@)
    &&& has_key(strings, "advanced_default_summary"@)
}

/// A value that is set, with its name and its unit.
pub open spec fn number_part(
    strings: Seq<Entry>,
    key: Seq<char>,
    value: Option<nat>,
    unit: Seq<char>,
) -> Seq<Seq<char>> {
    match value {
        Some(n) => seq![text_of(strings, key) + " "@ + decimal(n) + unit],
        None => Seq::empty(),
    }
}

/// The name of something that is so.
pub open spec fn name_part(strings: Seq<Entry>, key: Seq<char>, so: bool) -> Seq<Seq<char>> {
    if so {
        seq![text_of(strings, key)]
    } else {
        Seq::empty()
    }
}

/// What is set away from its default, in the order of the form.
pub open spec fn summary_parts(advanced: AdvancedModel, strings: Seq<Entry>) -> Seq<Seq<char>> {
    number_part(strings, "max_channels"@, widened(advanced.max_channels), Seq::empty())
        + number_part(
        strings,
        "connect_timeout_default"@,
        widened32(advanced.connect_timeout_s),
        "s"@,
    ) + number_part(
        strings,
        "command_timeout_default"@,
        widened32(advanced.command_timeout_s),
        "s"@,
    ) + number_part(strings, "keepalive_interval"@, widened16(advanced.keepalive_s), "s"@)
        + name_part(
        strings,
        env_key(advanced.remote_env),
        advanced.remote_env != RemoteEnv::Auto,
    ) + name_part(strings, "codex_hidden"@, advanced.codex_hidden) + name_part(
        strings,
        "telnet_prompts"@,
        advanced.telnet_prompts is Some,
    )
}

pub open spec fn widened(value: Option<u8>) -> Option<nat> {
    match value {
        Some(n) => Some(n as nat),
        None => None,
    }
}

pub open spec fn widened16(value: Option<u16>) -> Option<nat> {
    match value {
        Some(n) => Some(n as nat),
        None => None,
    }
}

pub open spec fn widened32(value: Option<u32>) -> Option<nat> {
    match value {
        Some(n) => Some(n as nat),
        None => None,
    }
}

pub open spec fn widened64(value: Option<u64>) -> Option<nat> {
    match value {
        Some(n) => Some(n as nat),
        None => None,
    }
}

fn push_number(parts: &mut Vec<String>, catalog: &Catalog, key: &str, value: Option<u64>, unit: &str)
    requires
        has_key(catalog.strings@, key@),
    ensures
        texts(final(parts)@) == texts(old(parts)@) + number_part(
            catalog.strings@,
            key@,
            widened64(value),
            unit@,
        ),
{
    if let Some(n) = value {
        let mut text = catalog.text(key).to_owned();
        text.append(" ");
        text.append(decimal_string(n).as_str());
        text.append(unit);
        parts.push(text);
    }
    assert(texts(parts@) =~= texts(old(parts)@) + number_part(
        catalog.strings@,
        key@,
        widened64(value),
        unit@,
    ));
}

fn push_name(parts: &mut Vec<String>, catalog: &Catalog, key: &str, so: bool)
    requires
        has_key(catalog.strings@, key@),
    ensures
        texts(final(parts)@) == texts(old(parts)@) + name_part(catalog.strings@, key@, so),
{
    if so {
        let text = catalog.text(key).to_owned();
        parts.push(text);
    }
    assert(texts(parts@) =~= texts(old(parts)@) + name_part(catalog.strings@, key@, so));
}

/// What is set away from its default in a line, so that a tuned host is recognised at a glance.
pub fn advanced_summary(profile: &HostProfile, catalog: &Catalog) -> (r: String)
    requires
        knows_summary(catalog.strings@),
    ensures
        r@ == {
            let parts = summary_parts(profile@.advanced, catalog.strings@);
            if parts.len() == 0 {
                text_of(catalog.strings@, "advanced_default_summary"@)
            } else {
                joined(parts, " · "@)
            }
        },
{
    let advanced = &profile.advanced;
    let mut parts: Vec<String> = Vec::new();
    let channels: Option<u64> = match advanced.max_channels {
        Some(n) => Some(n as u64),
        None => None,
    };
    let connect: Option<u64> = match advanced.connect_timeout_s {
        Some(n) => Some(n as u64),
        None => None,
    };
    let command: Option<u64> = match advanced.command_timeout_s {
        Some(n) => Some(n as u64),
        None => None,
    };
    let keepalive: Option<u64> = match advanced.keepalive_s {
        Some(n) => Some(n as u64),
        None => None,
    };
    proof {
        reveal_strlit("");
        assert(""@ =~= Seq::<char>::empty());
        assert(texts(parts@) =~= Seq::empty());
    }
    push_number(&mut parts, catalog, "max_channels", channels, "");
    push_number(&mut parts, catalog, "connect_timeout_default", connect, "s");
    push_number(&mut parts, catalog, "command_timeout_default", command, "s");
    push_number(&mut parts, catalog, "keepalive_interval", keepalive, "s");
    push_name(
        &mut parts,
        catalog,
        remote_env_key(advanced.remote_env),
        advanced.remote_env != RemoteEnv::Auto,
    );
    push_name(&mut parts, catalog, "codex_hidden", advanced.codex_hidden);
    push_name(&mut parts, catalog, "telnet_prompts", advanced.telnet_prompts.is_some());
    assert(texts(parts@) =~= summary_parts(profile@.advanced, catalog.strings@));
    assert(texts(parts@).len() == parts@.len());
    if parts.len() == 0 {
        catalog.text("advanced_default_summary").to_owned()
    } else {
        join(&parts, " · ")
    }
}

pub open spec fn persistence_key(value: AuthPersistence) -> Seq<char> {
    match value {
        AuthPersistence::PerCall => "persistence_per_call"@,
        AuthPersistence::Session => "persistence_session"@,
        AuthPersistence::Idle { .. } => "persistence_idle"@,
    }
}

/// A choice of persistence in words, with its minutes where it has any.
pub fn persistence_label(catalog: &Catalog, value: AuthPersistence) -> (r: String)
    requires
        has_key(catalog.strings@, persistence_key(value)),
        has_key(catalog.strings@, "persistence_minutes"@),
    ensures
        r@ == {
            let name = text_of(catalog.strings@, persistence_key(value));
            match value {
                AuthPersistence::Idle { minutes } => name + " ("@ + decimal(minutes as nat) + " "@
                    + text_of(catalog.strings@, "persistence_minutes"@) + ")"@,
                _ => name,
            }
        },
{
    match value {
        AuthPersistence::PerCall => catalog.text("persistence_per_call").to_owned(),
        AuthPersistence::Session => catalog.text("persistence_session").to_owned(),
        AuthPersistence::Idle { minutes } => {
            let mut text = catalog.text("persistence_idle").to_owned();
            text.append(" (");
            text.append(decimal_string(minutes as u64).as_str());
            text.append(" ");
            text.append(catalog.text("persistence_minutes"));
            text.append(")");
            text
        },
    }
}

/// A host serves as jump host for another.
pub open spec fn serves(
    candidate: ProfileModel,
    target: ProfileModel,
    hosts: Seq<ProfileModel>,
) -> bool {
    candidate.id != target.id && candidate.protocol == Protocol::Ssh && candidate.verified
        && has_chain(through(target, candidate), hosts)
}

/// The hosts through which another may be reached, in their order.
pub open spec fn serving(
    candidates: Seq<ProfileModel>,
    target: ProfileModel,
    hosts: Seq<ProfileModel>,
) -> Seq<Id>
    decreases candidates.len(),
{
    if candidates.len() == 0 {
        Seq::empty()
    } else {
        let before = serving(candidates.drop_last(), target, hosts);
        if serves(candidates.last(), target, hosts) {
            before.push(candidates.last().id)
        } else {
            before
        }
    }
}

pub fn jump_candidates(target: &HostProfile, hosts: &[HostProfile]) -> (r: Vec<Id>)
    ensures
        r@ == serving(models(hosts@), target@, models(hosts@)),
{
    let ghost all = models(hosts@);
    let mut out: Vec<Id> = Vec::new();
    let mut i: usize = 0;
    assert(all.take(0) =~= Seq::empty());
    while i < hosts.len()
        invariant
            i <= hosts@.len(),
            all == models(hosts@),
            out@ == serving(all.take(i as int), target@, all),
        decreases hosts@.len() - i,
    {
        assert(all.take(i + 1).drop_last() =~= all.take(i as int));
        assert(all.take(i + 1).last() == hosts@[i as int]@);
        if can_use_as_jump(&hosts[i], target, hosts) {
            out.push(hosts[i].id);
        }
        i = i + 1;
    }
    assert(all.take(i as int) =~= all);
    out
}

impl HostEditor {
    /// Chooses a persistence. Telnet has no session layer, so its hosts stay with every call.
    pub fn choose_persistence(&mut self, choice: AuthPersistence)
        ensures
            final(self)@ == (EditorModel {
                profile: ProfileModel {
                    auth_persistence: if old(self)@.profile.protocol == Protocol::Telnet {
                        AuthPersistence::PerCall
                    } else {
                        choice
                    },
                    ..old(self)@.profile
                },
                persistence_chosen: true,
                ..old(self)@
            }),
    {
        self.profile.auth_persistence = if self.profile.protocol == Protocol::Telnet {
            AuthPersistence::PerCall
        } else {
            choice
        };
        self.persistence_chosen = true;
        assert(self@ =~= (EditorModel {
            profile: ProfileModel {
                auth_persistence: self.profile.auth_persistence,
                ..old(self)@.profile
            },
            persistence_chosen: true,
            ..old(self)@
        }));
    }

    /// Adds the tag that was typed.
    pub fn add_tag(&mut self)
        ensures
            final(self)@ == (EditorModel {
                profile: ProfileModel {
                    tags: normalized(old(self)@.profile.tags.push(old(self)@.tag_input)),
                    ..old(self)@.profile
                },
                tag_input: Seq::empty(),
                ..old(self)@
            }),
    {
        let mut tags = crate::text::copy_texts(&self.profile.tags);
        tags.push(self.tag_input.clone());
        assert(texts(tags@) =~= old(self)@.profile.tags.push(old(self)@.tag_input));
        self.profile.tags = normalize_tags(&tags);
        self.tag_input = String::new();
    }

    /// Takes a tag away.
    pub fn remove_tag(&mut self, index: usize)
        requires
            index < old(self)@.profile.tags.len(),
        ensures
            final(self)@ == (EditorModel {
                profile: ProfileModel {
                    tags: old(self)@.profile.tags.remove(index as int),
                    ..old(self)@.profile
                },
                ..old(self)@
            }),
    {
        let _gone = self.profile.tags.remove(index);
        assert(texts(self.profile.tags@) =~= old(self)@.profile.tags.remove(index as int));
    }

    /// What is said beside the password.
    pub fn password_hint(&self) -> (r: Message)
        ensures
            r@ == if self@.password_mode == PasswordMode::NoPassword {
                MessageModel::text("no_password_hint"@)
            } else if self@.password_read_error is Some {
                MessageModel::about(
                    "credential_error"@,
                    "error"@,
                    self@.password_read_error->0,
                )
            } else if self@.saved_password_mode == Some(PasswordMode::Password) {
                MessageModel::text("password_saved"@)
            } else {
                MessageModel::text("password_required"@)
            },
    {
        if self.password_mode == PasswordMode::NoPassword {
            return Message::text("no_password_hint");
        }
        if let Some(error) = &self.password_read_error {
            return Message::about("credential_error", "error", error.clone());
        }
        match self.saved_password_mode {
            Some(PasswordMode::Password) => Message::text("password_saved"),
            _ => Message::text("password_required"),
        }
    }

    /// What is said beside the passphrase.
    pub fn passphrase_hint(&self) -> (r: Message)
        ensures
            r@ == if self@.key_passphrase_read_error is Some {
                MessageModel::about(
                    "credential_error"@,
                    "error"@,
                    self@.key_passphrase_read_error->0,
                )
            } else if self@.has_key_passphrase {
                MessageModel::text("passphrase_saved"@)
            } else {
                MessageModel::text("passphrase_optional"@)
            },
    {
        if let Some(error) = &self.key_passphrase_read_error {
            return Message::about("credential_error", "error", error.clone());
        }
        if self.has_key_passphrase {
            Message::text("passphrase_saved")
        } else {
            Message::text("passphrase_optional")
        }
    }
}

/// What became of a file with secrets that the user wanted deleted.
#[derive(Debug)]
pub enum Cleanup {
    Kept,
    /// It was deleted, or was gone already.
    Deleted,
    Failed(String),
}

impl HostsApp {
    /// Some dialog is open. `fido_setup` says whether that of the security key is.
    pub fn any_dialog_open(&self, fido_setup: bool) -> (r: bool)
        ensures
            r == (self@.fingerprint_prompt is Some || fido_setup || self@.import_window_open
                || self@.import_cleanup_prompt is Some || self@.batch_export_window_open
                || self@.delete_prompt || self@.persistence_prompt is Some
                || self@.batch_delete_prompt),
    {
        self.fingerprint_prompt.is_some() || fido_setup || self.import_window_open
            || self.import_cleanup_prompt.is_some() || self.batch_export_window_open
            || self.delete_prompt || self.persistence_prompt.is_some() || self.batch_delete_prompt
    }

    /// The host in the form is tested, or all hosts are.
    pub fn is_testing(&self) -> (r: bool)
        ensures
            r == (self@.board.testing_all || (self@.selected is Some && (runs(
                self@.board.operations,
                self@.selected->0,
            ) || self@.board.pending.contains(self@.selected->0)))),
    {
        if self.board.testing_all {
            return true;
        }
        match self.selected {
            Some(id) => self.board.is_running(id) || holds_id(&self.board.pending, id),
            None => false,
        }
    }

    /// Asks whether a host of the list is to be removed.
    pub fn request_delete(&mut self, id: Id, lookups: Lookups)
        ensures
            final(self)@ == (AppModel {
                selected: Some(id),
                editor: form_of(old(self)@.store.hosts, id, lookups),
                status: StatusModel::key("status_ready"@),
                delete_prompt: true,
                ..old(self)@
            }),
    {
        self.select(id, lookups);
        self.delete_prompt = true;
    }

    /// Gives up an editor that was opened for someone else, and reports it.
    pub fn cancel_editing(&mut self) -> (r: Flush)
        ensures
            ({
                let alias = match old(self)@.editor {
                    Some(editor) => Some(editor.profile.alias),
                    None => None,
                };
                let decided = old(self)@.callback.decided("cancelled"@, alias);
                final(self)@ == (AppModel { callback: decided.flushed(), ..old(self)@ })
                    && is_flush(decided, r)
            }),
    {
        let alias = match &self.editor {
            Some(editor) => Some(editor.profile.alias.clone()),
            None => None,
        };
        match &alias {
            Some(alias) => self.callback.write_callback("cancelled", Some(alias.as_str())),
            None => self.callback.write_callback("cancelled", None),
        }
    }

    /// Takes in what became of the file that hosts were imported from.
    pub fn import_cleaned_up(&mut self, outcome: Cleanup)
        ensures
            match old(self)@.import_cleanup_prompt {
                None => final(self)@ == old(self)@,
                Some(prompt) => final(self)@ == (AppModel {
                    import_cleanup_prompt: None,
                    status: cleanup_status(prompt.path, prompt.imported_count, outcome),
                    ..old(self)@
                }),
            },
    {
        let prompt = match self.import_cleanup_prompt.take() {
            None => {
                return;
            },
            Some(prompt) => prompt,
        };
        self.status = match outcome {
            Cleanup::Kept => Status::format("import_file_kept_warning", "path", prompt.path),
            Cleanup::Deleted => Status {
                kind: crate::status::status_kind_for_key("import_file_deleted"),
                message: Message::about_both(
                    "import_file_deleted",
                    "count",
                    decimal_string(prompt.imported_count as u64),
                    "path",
                    prompt.path,
                ),
            },
            Cleanup::Failed(error) => Status {
                kind: crate::status::status_kind_for_key("import_file_delete_failed"),
                message: Message::about_both(
                    "import_file_delete_failed",
                    "error",
                    error,
                    "path",
                    prompt.path,
                ),
            },
        };
    }

    /// Chooses the language. The store is to be saved then.
    pub fn choose_language(&mut self, locale: &str)
        ensures
            final(self)@ == (AppModel {
                store: StoreModel { preferred_locale: Some(locale@), ..old(self)@.store },
                ..old(self)@
            }),
    {
        self.store.preferred_locale = Some(locale.to_owned());
    }

    /// Takes in how saving the choice of a language went.
    pub fn language_saved(&mut self, failure: Option<String>)
        ensures
            final(self)@ == (AppModel {
                status: match failure {
                    Some(error) => StatusModel::format("storage_error"@, "error"@, error@),
                    None => StatusModel::key("status_ready"@),
                },
                ..old(self)@
            }),
    {
        self.status = match failure {
            Some(error) => Status::format("storage_error", "error", error),
            None => Status::key("status_ready"),
        };
    }

    /// Puts the file of a key into the form.
    pub fn use_key_file(&mut self, path: &str)
        ensures
            final(self)@ == (AppModel {
                editor: match old(self)@.editor {
                    Some(editor) => Some(with_key_file(editor, path@)),
                    None => None,
                },
                ..old(self)@
            }),
    {
        if let Some(editor) = &mut self.editor {
            set_key_file(editor, path);
        }
    }

    /// Takes in the security key that was found: the first of those that were looked up.
    pub fn fido_found(&mut self, found: &Vec<crate::fido::FidoKeyInfo>)
        ensures
            final(self)@ == if found@.len() == 0 {
                AppModel { status: StatusModel::key("fido_not_found"@), ..old(self)@ }
            } else {
                AppModel {
                    editor: match old(self)@.editor {
                        Some(editor) => Some(with_key_file(editor, found@[0].path@)),
                        None => None,
                    },
                    status: StatusModel::format(
                        "fido_found"@,
                        "fingerprint"@,
                        found@[0].fingerprint@,
                    ),
                    ..old(self)@
                }
            },
    {
        if found.len() == 0 {
            self.status = Status::key("fido_not_found");
            return;
        }
        self.use_key_file(found[0].path.as_str());
        self.status = Status::format("fido_found", "fingerprint", found[0].fingerprint.clone());
    }
}

/// The form with the file of another key.
pub open spec fn with_key_file(editor: EditorModel, path: Seq<char>) -> EditorModel {
    EditorModel {
        profile: ProfileModel { private_key_path: path, ..editor.profile },
        ..editor
    }
}

fn set_key_file(editor: &mut HostEditor, path: &str)
    ensures
        final(editor)@ == with_key_file(old(editor)@, path@),
{
    editor.profile.private_key_path = path.to_owned();
}

/// What the user is told of the file that hosts were imported from.
pub open spec fn cleanup_status(path: Seq<char>, count: usize, outcome: Cleanup) -> StatusModel {
    match outcome {
        Cleanup::Kept => StatusModel::format("import_file_kept_warning"@, "path"@, path),
        Cleanup::Deleted => StatusModel {
            kind: crate::status::kind_of_key("import_file_deleted"@),
            message: MessageModel::about_both(
                "import_file_deleted"@,
                "count"@,
                decimal(count as nat),
                "path"@,
                path,
            ),
        },
        Cleanup::Failed(error) => StatusModel {
            kind: crate::status::kind_of_key("import_file_delete_failed"@),
            message: MessageModel::about_both(
                "import_file_delete_failed"@,
                "error"@,
                error@,
                "path"@,
                path,
            ),
        },
    }
}

/// Another protocol takes its usual port where the old one had its own, and Telnet drops the jump
/// host; nothing else changes.
pub proof fn protocols_bring_their_port(profile: ProfileModel, to: Protocol)
    ensures
        protocol_switched(profile, to).protocol == to,
        profile.protocol == Protocol::Ssh && to == Protocol::Telnet && profile.port == 22
            ==> protocol_switched(profile, to).port == 23,
        profile.protocol == Protocol::Telnet && to == Protocol::Ssh && profile.port == 23
            ==> protocol_switched(profile, to).port == 22,
        profile.port != 22 && profile.port != 23 ==> protocol_switched(profile, to).port
            == profile.port,
        to == Protocol::Telnet && profile.protocol != to ==> protocol_switched(
            profile,
            to,
        ).jump_host is None,
        to == Protocol::Ssh ==> protocol_switched(profile, to).jump_host == profile.jump_host,
        protocol_switched(profile, to).address == profile.address,
        protocol_switched(profile, to).username == profile.username,
        protocol_switched(profile, to).id == profile.id,
{
}

/// Offered as jump hosts are the other verified SSH hosts that lead somewhere, each of them.
pub proof fn jump_hosts_are_offered(
    candidates: Seq<ProfileModel>,
    target: ProfileModel,
    hosts: Seq<ProfileModel>,
    i: int,
)
    requires
        0 <= i < candidates.len(),
    ensures
        candidates[i].id != target.id && candidates[i].protocol == Protocol::Ssh
            && candidates[i].verified && has_chain(through(target, candidates[i]), hosts)
            ==> serving(candidates, target, hosts).contains(candidates[i].id),
        !serving(candidates, target, hosts).contains(target.id),
    decreases candidates.len(),
{
    let short = candidates.drop_last();
    let before = serving(short, target, hosts);
    let all = serving(candidates, target, hosts);
    if short.len() > 0 {
        jump_hosts_are_offered(short, target, hosts, if i < short.len() {
            i
        } else {
            0
        });
    }
    if i < short.len() && before.contains(candidates[i].id) {
        assert(short[i] == candidates[i]);
        let k = choose|k: int| 0 <= k < before.len() && before[k] == candidates[i].id;
        assert(all[k] == candidates[i].id);
    }
    if i == short.len() && serves(candidates[i], target, hosts) {
        assert(all[before.len() as int] == candidates[i].id);
    }
    if all.contains(target.id) {
        let k = choose|k: int| 0 <= k < all.len() && all[k] == target.id;
        if k < before.len() {
            assert(before[k] == target.id);
        }
    }
}

/// The line about a host's settings says nothing where all of them are the usual ones, and has a
/// part for each that is not.
pub proof fn unusual_settings_are_told(advanced: AdvancedModel, strings: Seq<Entry>)
    ensures
        advanced.max_channels is None && advanced.connect_timeout_s is None
            && advanced.command_timeout_s is None && advanced.keepalive_s is None
            && advanced.remote_env == RemoteEnv::Auto && !advanced.codex_hidden
            && advanced.telnet_prompts is None ==> summary_parts(advanced, strings).len() == 0,
        advanced.max_channels matches Some(n) ==> summary_parts(advanced, strings).len() > 0
            && summary_parts(advanced, strings)[0] == text_of(strings, "max_channels"@) + " "@
            + decimal(n as nat) + Seq::<char>::empty(),
        advanced.max_channels is None && (advanced.connect_timeout_s is Some) ==> summary_parts(
            advanced,
            strings,
        )[0] == text_of(strings, "connect_timeout_default"@) + " "@ + decimal(
            advanced.connect_timeout_s->0 as nat,
        ) + "s"@,
        advanced.max_channels is None && advanced.connect_timeout_s is None
            && advanced.command_timeout_s is Some ==> summary_parts(advanced, strings)[0]
            == text_of(strings, "command_timeout_default"@) + " "@ + decimal(
            advanced.command_timeout_s->0 as nat,
        ) + "s"@,
        advanced.codex_hidden && advanced.telnet_prompts is None ==> summary_parts(
            advanced,
            strings,
        ).last() == text_of(strings, "codex_hidden"@),
        advanced.telnet_prompts is Some ==> summary_parts(advanced, strings).last() == text_of(
            strings,
            "telnet_prompts"@,
        ),
{
}

/// A key file goes into the form as it was chosen, and nothing else of the form changes.
pub proof fn key_files_go_into_the_form(editor: EditorModel, path: Seq<char>)
    ensures
        with_key_file(editor, path).profile.private_key_path == path,
        with_key_file(editor, path).profile.address == editor.profile.address,
        with_key_file(editor, path).profile.ssh_auth == editor.profile.ssh_auth,
        with_key_file(editor, path).original == editor.original,
{
}

/// The user is told whether the file that hosts came from was deleted, and which file it is.
pub proof fn leftover_files_are_named(path: Seq<char>, count: usize, outcome: Cleanup)
    ensures
        outcome is Kept ==> cleanup_status(path, count, outcome).message == MessageModel::Keyed(
            "import_file_kept_warning"@,
            seq![("path"@, path)],
        ),
        outcome is Deleted ==> cleanup_status(path, count, outcome).message == MessageModel::Keyed(
            "import_file_deleted"@,
            seq![("count"@, decimal(count as nat)), ("path"@, path)],
        ),
        outcome matches Cleanup::Failed(error) ==> cleanup_status(path, count, outcome).message
            == MessageModel::Keyed(
            "import_file_delete_failed"@,
            seq![("error"@, error@), ("path"@, path)],
        ),
{
}

/// Every choice of the form has a text of its own kind.
pub proof fn choices_have_their_texts(env: RemoteEnv, value: AuthPersistence)
    ensures
        env == RemoteEnv::Posix ==> env_key(env) == "remote_env_posix"@,
        env == RemoteEnv::Windows ==> env_key(env) == "remote_env_windows"@,
        value is PerCall ==> persistence_key(value) == "persistence_per_call"@,
        value is Session ==> persistence_key(value) == "persistence_session"@,
        value is Idle ==> persistence_key(value) == "persistence_idle"@,
        is_same_kind(value, value),
        value is Session ==> !is_same_kind(value, AuthPersistence::PerCall),
{
}

} // verus!
